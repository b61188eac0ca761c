//! What the timeline and preview make of the pointer: which handle or item a
//! press grabs, where a dragged clip or overlay lands, the trim range, and
//! the clock texts and ruler spacing shown with them.
use vstd::prelude::*;
use crate::editor::clip::{Clip, ClipView};
use crate::editor::player::PlaybackState;
use crate::recorder::RecordingState;
use crate::editor::text_overlay::{TextOverlay, TextOverlayView};
use crate::editor::timeline::{all_fit, clip_views, crossing, cut_result, overlay_views, overlapping_ids, total_of, Timeline};
use crate::text::{dec2, push_dec2, string_from_chars};

verus! {

/// Whole seconds of a time, as `MM:SS` (minutes may exceed two digits).
pub open spec fn mmss(us: u64) -> Seq<char> {
    let s = (us / 1_000_000) as nat;
    dec2(s / 60) + seq![':'] + dec2(s % 60)
}

/// Whole seconds of a time, as `HH:MM:SS`.
pub open spec fn hhmmss(us: u64) -> Seq<char> {
    let s = (us / 1_000_000) as nat;
    dec2(s / 3600) + seq![':'] + dec2((s % 3600) / 60) + seq![':'] + dec2(s % 60)
}

/// Format a duration as `MM:SS`.
pub fn fmt_duration(us: u64) -> (r: String)
    ensures
        r@ == mmss(us),
{
    let s = us / 1_000_000;
    let mut out: Vec<char> = Vec::new();
    push_dec2(&mut out, s / 60);
    out.push(':');
    push_dec2(&mut out, s % 60);
    string_from_chars(&out)
}

/// Format a duration as `HH:MM:SS`.
pub fn fmt_duration_hms(us: u64) -> (r: String)
    ensures
        r@ == hhmmss(us),
{
    let s = us / 1_000_000;
    let mut out: Vec<char> = Vec::new();
    push_dec2(&mut out, s / 3600);
    out.push(':');
    push_dec2(&mut out, (s % 3600) / 60);
    out.push(':');
    push_dec2(&mut out, s % 60);
    string_from_chars(&out)
}

/// Whether ruler ticks `step` microseconds apart stand at least 80 pixels
/// apart at `zoom` pixels per second.
pub open spec fn wide_enough(step: nat, zoom: nat) -> bool {
    step * zoom >= 80_000_000
}

/// The first of 0.5, 1, 2, 5, 10, 30, 60, 120 and 300 seconds whose ticks
/// stand 80 pixels apart at `zoom`; 600 seconds when none does.
pub open spec fn ruler_step_of(zoom: nat) -> nat {
    if wide_enough(500_000, zoom) { 500_000 }
    else if wide_enough(1_000_000, zoom) { 1_000_000 }
    else if wide_enough(2_000_000, zoom) { 2_000_000 }
    else if wide_enough(5_000_000, zoom) { 5_000_000 }
    else if wide_enough(10_000_000, zoom) { 10_000_000 }
    else if wide_enough(30_000_000, zoom) { 30_000_000 }
    else if wide_enough(60_000_000, zoom) { 60_000_000 }
    else if wide_enough(120_000_000, zoom) { 120_000_000 }
    else if wide_enough(300_000_000, zoom) { 300_000_000 }
    else { 600_000_000 }
}

/// The ruler tick interval, in microseconds, at `zoom` pixels per second.
pub fn ruler_step(zoom: u32) -> (step: u64)
    ensures
        step == ruler_step_of(zoom as nat),
{
    let z = zoom as u64;
    if 500_000 * z >= 80_000_000 { 500_000 }
    else if 1_000_000 * z >= 80_000_000 { 1_000_000 }
    else if 2_000_000 * z >= 80_000_000 { 2_000_000 }
    else if 5_000_000 * z >= 80_000_000 { 5_000_000 }
    else if 10_000_000 * z >= 80_000_000 { 10_000_000 }
    else if 30_000_000 * z >= 80_000_000 { 30_000_000 }
    else if 60_000_000 * z >= 80_000_000 { 60_000_000 }
    else if 120_000_000 * z >= 80_000_000 { 120_000_000 }
    else if 300_000_000 * z >= 80_000_000 { 300_000_000 }
    else { 600_000_000 }
}

/// Height of the ruler strip, in pixels.
pub const RULER_H: i64 = 20;
/// Height of the clip track, in pixels.
pub const TRACK_H: i64 = 40;
/// Gap between the clip track and the text track, in pixels.
pub const TRACK_GAP: i64 = 2;
/// Height of the text track, in pixels.
pub const TEXT_TRACK_H: i64 = 30;
/// Half the width of the playhead's square handle, in pixels.
pub const PLAYHEAD_HALF: i64 = 8;
/// Height of the band in which the handles can be grabbed, in pixels.
pub const HANDLE_BAND: i64 = 19;
/// Width of a trim handle's triangle, in pixels.
pub const TRIM_HANDLE_W: i64 = 12;
/// Half the width of the band round the playhead line below the handles.
pub const PLAYHEAD_LINE_HALF: i64 = 14;
/// Width of the resize band at each end of a text overlay, in pixels.
pub const EDGE_GRAB_W: i64 = 12;

/// What a press on the timeline takes hold of.
#[derive(Debug, Clone, Copy, PartialEq, Eq, Structural)]
pub enum Grab {
    /// The left trim handle.
    TrimLeft,
    /// The right trim handle.
    TrimRight,
    /// The playhead.
    Playhead,
    /// A clip, held `offset` microseconds after its start.
    Clip { id: u64, offset: u64 },
    /// The start edge of a text overlay.
    OverlayStart { id: u64 },
    /// The end edge of a text overlay.
    OverlayEnd { id: u64 },
    /// The body of a text overlay, held `offset` microseconds after its start.
    OverlayBody { id: u64, offset: u64 },
    /// Nothing: the press scrubs the playhead.
    Nothing,
}

pub open spec fn min_int(a: int, b: int) -> int {
    if a <= b { a } else { b }
}

pub open spec fn max_int(a: int, b: int) -> int {
    if a >= b { a } else { b }
}

pub open spec fn abs_int(a: int) -> int {
    if a >= 0 { a } else { -a }
}

/// Whether a clip covers time `t`, both ends included.
pub open spec fn clip_covers(c: ClipView, t: int) -> bool {
    c.timeline_start <= t && t <= c.end_pos()
}

/// Whether an overlay covers time `t`, both ends included.
pub open spec fn overlay_covers(o: TextOverlayView, t: int) -> bool {
    o.start <= t && t <= o.end
}

/// The first clip, from index `i` on, that covers `t`.
pub open spec fn clip_at_from(s: Seq<ClipView>, t: int, i: int) -> Option<ClipView>
    decreases s.len() - i,
{
    if i < 0 || i >= s.len() {
        None
    } else if clip_covers(s[i], t) {
        Some(s[i])
    } else {
        clip_at_from(s, t, i + 1)
    }
}

/// The first overlay, from index `i` on, that covers `t`.
pub open spec fn overlay_at_from(s: Seq<TextOverlayView>, t: int, i: int) -> Option<TextOverlayView>
    decreases s.len() - i,
{
    if i < 0 || i >= s.len() {
        None
    } else if overlay_covers(s[i], t) {
        Some(s[i])
    } else {
        overlay_at_from(s, t, i + 1)
    }
}

/// Whether `py` lies in the band above the ruler that holds the handles.
pub open spec fn in_handle_band(py: int) -> bool {
    0 <= py && py <= HANDLE_BAND
}

/// Whether `py` lies in the clip track.
pub open spec fn in_clip_track(py: int) -> bool {
    RULER_H <= py && py <= RULER_H + TRACK_H
}

/// Whether `py` lies in the text track.
pub open spec fn in_text_track(py: int) -> bool {
    RULER_H + 4 + TRACK_H + TRACK_GAP <= py && py <= RULER_H + 4 + TRACK_H + TRACK_GAP + TEXT_TRACK_H
}

/// The inner edge of the left trim flag, in scaled pixels: at the left head,
/// but never right of the playhead's handle.
pub open spec fn left_flag_edge(left: u64, ph: u64, z: int) -> int {
    min_int(left * z, ph * z - PLAYHEAD_HALF * 1_000_000)
}

/// The inner edge of the right trim flag: at the right head, but never left
/// of the playhead's handle.
pub open spec fn right_flag_edge(right: u64, ph: u64, z: int) -> int {
    max_int(right * z, ph * z + PLAYHEAD_HALF * 1_000_000)
}

/// The left trim flag: `TRIM_HANDLE_W` pixels left of its edge, in the band.
pub open spec fn on_left_flag(left: u64, ph: u64, z: int, tz: int, py: int) -> bool {
    let e = left_flag_edge(left, ph, z);
    in_handle_band(py) && e - TRIM_HANDLE_W * 1_000_000 <= tz && tz <= e
}

/// The right trim flag: `TRIM_HANDLE_W` pixels right of its edge, in the band.
pub open spec fn on_right_flag(right: u64, ph: u64, z: int, tz: int, py: int) -> bool {
    let e = right_flag_edge(right, ph, z);
    in_handle_band(py) && e <= tz && tz <= e + TRIM_HANDLE_W * 1_000_000
}

/// The playhead: its square handle in the band, or its line across the ruler.
pub open spec fn on_playhead(ph: u64, z: int, tz: int, py: int) -> bool {
    let phz = ph * z;
    ||| in_handle_band(py) && phz - PLAYHEAD_HALF * 1_000_000 <= tz && tz <= phz + PLAYHEAD_HALF * 1_000_000
    ||| py < RULER_H + 4 && abs_int(tz - phz) < PLAYHEAD_LINE_HALF * 1_000_000
}

/// What a press on overlay `o` takes: its start edge, its end edge (each
/// `EDGE_GRAB_W` pixels wide, the start first), or its body.
pub open spec fn overlay_part(o: TextOverlayView, z: int, t: int) -> Grab {
    let tz = t * z;
    if tz <= o.start * z + EDGE_GRAB_W * 1_000_000 {
        Grab::OverlayStart { id: o.id }
    } else if tz >= o.end * z - EDGE_GRAB_W * 1_000_000 {
        Grab::OverlayEnd { id: o.id }
    } else {
        Grab::OverlayBody { id: o.id, offset: (t - o.start) as u64 }
    }
}

/// What a press grabs at time `t` and `py` pixels below the top of the
/// strip, at `zoom` pixels per second. Positions compare in pixels scaled by
/// a million (time in microseconds times zoom). In order of priority: the
/// left trim flag, the right trim flag, the playhead, the first clip under
/// the pointer in the clip track, the first overlay under it in the text
/// track.
pub open spec fn grab_of(
    cs: Seq<ClipView>,
    os: Seq<TextOverlayView>,
    ph: u64,
    left: u64,
    right: u64,
    zoom: u32,
    t: int,
    py: int,
) -> Grab {
    let z = zoom as int;
    if on_left_flag(left, ph, z, t * z, py) {
        Grab::TrimLeft
    } else if on_right_flag(right, ph, z, t * z, py) {
        Grab::TrimRight
    } else if on_playhead(ph, z, t * z, py) {
        Grab::Playhead
    } else if in_clip_track(py) {
        match clip_at_from(cs, t, 0) {
            Some(c) => Grab::Clip { id: c.id, offset: (t - c.timeline_start) as u64 },
            None => Grab::Nothing,
        }
    } else if in_text_track(py) {
        match overlay_at_from(os, t, 0) {
            Some(o) => overlay_part(o, z, t),
            None => Grab::Nothing,
        }
    } else {
        Grab::Nothing
    }
}

/// A time scaled by a zoom stays well inside `i128`.
proof fn lemma_scaled_bounds(x: int, zoom: u32)
    requires
        -0x8000_0000_0000_0000 <= x < 0x1_0000_0000_0000_0000,
    ensures
        -0x1_0000_0000_0000_0000_0000_0000 <= x * zoom <= 0x1_0000_0000_0000_0000_0000_0000,
{
    assert(-0x1_0000_0000_0000_0000_0000_0000 <= x * zoom <= 0x1_0000_0000_0000_0000_0000_0000) by (nonlinear_arith)
        requires -0x8000_0000_0000_0000 <= x < 0x1_0000_0000_0000_0000, 0 <= zoom < 0x1_0000_0000;
}

/// Index of the first clip that covers `t`.
fn clip_hit(clips: &[Clip], t: i64) -> (r: Option<usize>)
    ensures
        match r {
            Some(i) => i < clips@.len() && clip_at_from(clip_views(clips@), t as int, 0) == Some(clip_views(clips@)[i as int])
                && clip_covers(clip_views(clips@)[i as int], t as int),
            None => clip_at_from(clip_views(clips@), t as int, 0) is None,
        },
{
    let ghost s = clip_views(clips@);
    let n = clips.len();
    let mut i: usize = 0;
    while i < n
        invariant
            n == s.len(),
            s == clip_views(clips@),
            i <= n,
            clip_at_from(s, t as int, 0) == clip_at_from(s, t as int, i as int),
        decreases n - i,
    {
        let c = &clips[i];
        let end: u128 = c.timeline_start as u128 + c.duration() as u128;
        assert(s[i as int] == c@);
        if (t as i128) >= (c.timeline_start as i128) && (t as i128) <= (end as i128) {
            return Some(i);
        }
        i = i + 1;
    }
    None
}

/// Index of the first overlay that covers `t`.
fn overlay_hit(overlays: &[TextOverlay], t: i64) -> (r: Option<usize>)
    ensures
        match r {
            Some(i) => i < overlays@.len() && overlay_at_from(overlay_views(overlays@), t as int, 0) == Some(overlay_views(overlays@)[i as int])
                && overlay_covers(overlay_views(overlays@)[i as int], t as int),
            None => overlay_at_from(overlay_views(overlays@), t as int, 0) is None,
        },
{
    let ghost s = overlay_views(overlays@);
    let n = overlays.len();
    let mut i: usize = 0;
    while i < n
        invariant
            n == s.len(),
            s == overlay_views(overlays@),
            i <= n,
            overlay_at_from(s, t as int, 0) == overlay_at_from(s, t as int, i as int),
        decreases n - i,
    {
        let o = &overlays[i];
        assert(s[i as int] == o@);
        if (t as i128) >= (o.start as i128) && (t as i128) <= (o.end as i128) {
            return Some(i);
        }
        i = i + 1;
    }
    None
}

/// What a press at time `t` (microseconds, negative left of the origin) and
/// `py` pixels below the top of the timeline strip takes hold of, at `zoom`
/// pixels per second. An unplaced trim head sits at the playhead.
pub fn grab_at(timeline: &Timeline, trim_left: Option<u64>, trim_right: Option<u64>, zoom: u32, t: i64, py: i64) -> (g: Grab)
    ensures
        g == grab_of(
            timeline.clip_seq(),
            timeline.overlay_seq(),
            timeline.head(),
            match trim_left { Some(l) => l, None => timeline.head() },
            match trim_right { Some(r) => r, None => timeline.head() },
            zoom,
            t as int,
            py as int,
        ),
{
    let ph = timeline.playhead();
    let left = match trim_left { Some(l) => l, None => ph };
    let right = match trim_right { Some(r) => r, None => ph };
    let z = zoom as i128;
    proof {
        lemma_scaled_bounds(t as int, zoom);
        lemma_scaled_bounds(ph as int, zoom);
        lemma_scaled_bounds(left as int, zoom);
        lemma_scaled_bounds(right as int, zoom);
    }
    let tz = (t as i128) * z;
    let phz = (ph as i128) * z;
    let lz = (left as i128) * z;
    let rz = (right as i128) * z;
    let sq: i128 = (PLAYHEAD_HALF as i128) * 1_000_000;
    let tw: i128 = (TRIM_HANDLE_W as i128) * 1_000_000;
    let in_band = 0 <= py && py <= HANDLE_BAND;
    let l_flat = if lz <= phz - sq { lz } else { phz - sq };
    let r_flat = if rz >= phz + sq { rz } else { phz + sq };
    if in_band && l_flat - tw <= tz && tz <= l_flat {
        return Grab::TrimLeft;
    }
    if in_band && r_flat <= tz && tz <= r_flat + tw {
        return Grab::TrimRight;
    }
    if in_band && phz - sq <= tz && tz <= phz + sq {
        return Grab::Playhead;
    }
    let d = if tz >= phz { tz - phz } else { phz - tz };
    if py < RULER_H + 4 && d < (PLAYHEAD_LINE_HALF as i128) * 1_000_000 {
        return Grab::Playhead;
    }
    if RULER_H <= py && py <= RULER_H + TRACK_H {
        let clips = timeline.clips();
        return match clip_hit(clips, t) {
            Some(i) => {
                let c = &clips[i];
                Grab::Clip { id: c.id, offset: (t as u64) - c.timeline_start }
            },
            None => Grab::Nothing,
        };
    }
    let text_top = RULER_H + 4 + TRACK_H + TRACK_GAP;
    if text_top <= py && py <= text_top + TEXT_TRACK_H {
        let overlays = timeline.text_overlays();
        return match overlay_hit(overlays, t) {
            Some(i) => {
                let o = &overlays[i];
                proof {
                    lemma_scaled_bounds(o.start as int, zoom);
                    lemma_scaled_bounds(o.end as int, zoom);
                }
                let sz = (o.start as i128) * z;
                let ez = (o.end as i128) * z;
                let edge: i128 = (EDGE_GRAB_W as i128) * 1_000_000;
                if tz <= sz + edge {
                    Grab::OverlayStart { id: o.id }
                } else if tz >= ez - edge {
                    Grab::OverlayEnd { id: o.id }
                } else {
                    Grab::OverlayBody { id: o.id, offset: (t as u64) - o.start }
                }
            },
            None => Grab::Nothing,
        };
    }
    Grab::Nothing
}


/// How close, in microseconds, a dragged clip's edge must come to another
/// edge (or to time zero) to snap to it.
pub const SNAP_THRESHOLD: u64 = 300_000;

/// One clip's offer of a snap for a clip dragged to `start` and lasting
/// `dur`: its end for the dragged start, its start for the dragged end, then
/// its start for the dragged start; each taken when strictly closer than the
/// best so far.
pub open spec fn snap_step(start: int, dur: int, c: ClipView, best: Option<int>, dist: int) -> (Option<int>, int) {
    let os = c.timeline_start as int;
    let oe = c.end_pos() as int;
    let d1 = abs_int(start - oe);
    let (b1, e1) = if d1 < dist { (Some(oe), d1) } else { (best, dist) };
    let d2 = abs_int(start + dur - os);
    let (b2, e2) = if d2 < e1 { (Some(os - dur), d2) } else { (b1, e1) };
    let d3 = abs_int(start - os);
    if d3 < e2 { (Some(os), d3) } else { (b2, e2) }
}

/// The best snap among the first `n` clips other than `id`, with its
/// distance; none within the threshold gives `(None, threshold)`.
pub open spec fn snap_search(cs: Seq<ClipView>, id: u64, start: int, dur: int, n: int) -> (Option<int>, int)
    decreases n,
{
    if n <= 0 || n > cs.len() {
        (None, SNAP_THRESHOLD as int)
    } else {
        let prev = snap_search(cs, id, start, dur, n - 1);
        if cs[n - 1].id == id {
            prev
        } else {
            snap_step(start, dur, cs[n - 1], prev.0, prev.1)
        }
    }
}

/// Facts of the snap search over the first `n` clips: a snap found lies at
/// the distance it reports, below the threshold, on an edge another clip
/// offers; and no edge offered by those clips is nearer.
proof fn lemma_snap_search_facts(cs: Seq<ClipView>, id: u64, start: int, dur: int, n: int)
    requires
        0 <= n <= cs.len(),
    ensures
        snap_search(cs, id, start, dur, n).1 <= SNAP_THRESHOLD,
        snap_search(cs, id, start, dur, n).0 is None ==> snap_search(cs, id, start, dur, n).1 == SNAP_THRESHOLD,
        snap_search(cs, id, start, dur, n).0 matches Some(x) ==> {
            &&& abs_int(start - x) == snap_search(cs, id, start, dur, n).1
            &&& snap_search(cs, id, start, dur, n).1 < SNAP_THRESHOLD
            &&& exists|k: int| 0 <= k < n && #[trigger] cs[k].id != id && (x == cs[k].timeline_start
                || x == cs[k].end_pos() || x + dur == cs[k].timeline_start)
        },
        forall|k: int| 0 <= k < n && #[trigger] cs[k].id != id ==> {
            &&& snap_search(cs, id, start, dur, n).1 <= abs_int(start - cs[k].end_pos())
            &&& snap_search(cs, id, start, dur, n).1 <= abs_int(start + dur - cs[k].timeline_start)
            &&& snap_search(cs, id, start, dur, n).1 <= abs_int(start - cs[k].timeline_start)
        },
    decreases n,
{
    if n > 0 {
        lemma_snap_search_facts(cs, id, start, dur, n - 1);
        let prev = snap_search(cs, id, start, dur, n - 1);
        if prev.0 is Some {
            let x = prev.0->0;
            let k = choose|k: int| 0 <= k < n - 1 && #[trigger] cs[k].id != id && (x == cs[k].timeline_start
                || x == cs[k].end_pos() || x + dur == cs[k].timeline_start);
            assert(cs[k].id != id);
        }
        if cs[n - 1].id != id {
            assert(cs[n - 1].id != id);
        }
    }
}

/// Snapping moves a clip dropped at `start` to the nearest place offered:
/// another clip's end or start for its start, another clip's start for its
/// end (so it lands `dur` before that start), or zero. It moves by less
/// than the snap threshold, by no more than the distance to any edge
/// another clip offers, and never before zero.
pub proof fn lemma_snap_moves_to_nearest_edge(cs: Seq<ClipView>, id: u64, start: int, dur: int)
    requires
        start >= 0,
    ensures
        snapped(cs, id, start, dur) >= 0,
        snapped(cs, id, start, dur) == start || abs_int(snapped(cs, id, start, dur) - start) < SNAP_THRESHOLD,
        snapped(cs, id, start, dur) == start || snapped(cs, id, start, dur) == 0
            || exists|k: int| 0 <= k < cs.len() && #[trigger] cs[k].id != id && (
                snapped(cs, id, start, dur) == cs[k].timeline_start
                || snapped(cs, id, start, dur) == cs[k].end_pos()
                || snapped(cs, id, start, dur) + dur == cs[k].timeline_start),
        forall|k: int| 0 <= k < cs.len() && #[trigger] cs[k].id != id ==> {
            &&& abs_int(snapped(cs, id, start, dur) - start) <= abs_int(start - cs[k].end_pos())
            &&& abs_int(snapped(cs, id, start, dur) - start) <= abs_int(start + dur - cs[k].timeline_start)
            &&& abs_int(snapped(cs, id, start, dur) - start) <= abs_int(start - cs[k].timeline_start)
        },
{
    lemma_snap_search_facts(cs, id, start, dur, cs.len() as int);
    let r = snap_search(cs, id, start, dur, cs.len() as int);
    if r.0 is Some && !(start < SNAP_THRESHOLD && start < r.1) {
        let x = r.0->0;
        let k = choose|k: int| 0 <= k < cs.len() && #[trigger] cs[k].id != id && (x == cs[k].timeline_start
            || x == cs[k].end_pos() || x + dur == cs[k].timeline_start);
        assert(cs[k].id != id);
    }
}

/// Where a clip dragged to `start` (not negative) lands after snapping: to
/// the closest edge offered, or to zero when that is closer still; never
/// before zero.
pub open spec fn snapped(cs: Seq<ClipView>, id: u64, start: int, dur: int) -> int {
    let (best, dist) = snap_search(cs, id, start, dur, cs.len() as int);
    let b = if start < SNAP_THRESHOLD && start < dist { Some(0int) } else { best };
    match b {
        Some(x) => max_int(x, 0),
        None => start,
    }
}

/// The start after pushing the dragged clip off each of the first `n` other
/// clips in turn: where it overlaps one, it moves to that clip's nearer side
/// (its left side when both are as near).
pub open spec fn pushed_off(cs: Seq<ClipView>, id: u64, start: int, dur: int, n: int) -> int
    decreases n,
{
    if n <= 0 || n > cs.len() {
        start
    } else {
        let cs_ = pushed_off(cs, id, start, dur, n - 1);
        let c = cs[n - 1];
        let os = c.timeline_start as int;
        let oe = c.end_pos() as int;
        if c.id != id && cs_ + dur > os && cs_ < oe {
            if cs_ + dur - os <= oe - cs_ { os - dur } else { oe }
        } else {
            cs_
        }
    }
}

/// Pushing a dragged clip off the others only ever puts it flush against
/// one of them: it stays where it was, or it ends where another clip
/// starts, or it starts where another clip ends.
pub proof fn lemma_push_lands_flush(cs: Seq<ClipView>, id: u64, start: int, dur: int, n: int)
    requires
        0 <= n <= cs.len(),
    ensures
        pushed_off(cs, id, start, dur, n) == start || exists|k: int| 0 <= k < n && #[trigger] cs[k].id != id
            && (pushed_off(cs, id, start, dur, n) + dur == cs[k].timeline_start
                || pushed_off(cs, id, start, dur, n) == cs[k].end_pos()),
    decreases n,
{
    if n > 0 {
        lemma_push_lands_flush(cs, id, start, dur, n - 1);
        let prev = pushed_off(cs, id, start, dur, n - 1);
        let c = cs[n - 1];
        if c.id != id && prev + dur > c.timeline_start && prev < c.end_pos() {
            assert(cs[n - 1].id != id);
        } else if prev != start {
            let k = choose|k: int| 0 <= k < n - 1 && #[trigger] cs[k].id != id
                && (prev + dur == cs[k].timeline_start || prev == cs[k].end_pos());
            assert(cs[k].id != id);
        }
    }
}

/// Duration of the first clip with the given id; zero when there is none.
pub open spec fn dur_of(cs: Seq<ClipView>, id: u64, i: int) -> nat
    decreases cs.len() - i,
{
    if i < 0 || i >= cs.len() {
        0
    } else if cs[i].id == id {
        cs[i].span()
    } else {
        dur_of(cs, id, i + 1)
    }
}

/// Where the clip `id`, held `offset` after its start, lands when the
/// pointer is at time `t`: snapped, then pushed off the clips it would
/// overlap, never before zero.
pub open spec fn dragged_start(cs: Seq<ClipView>, id: u64, t: int, offset: int) -> int {
    let dur = dur_of(cs, id, 0) as int;
    let s0 = max_int(t - offset, 0);
    max_int(pushed_off(cs, id, snapped(cs, id, s0, dur), dur, cs.len() as int), 0)
}

/// Duration of the first clip with the given id; zero when there is none.
fn clip_duration(clips: &[Clip], id: u64) -> (d: u64)
    ensures
        d == dur_of(clip_views(clips@), id, 0),
{
    let ghost s = clip_views(clips@);
    let n = clips.len();
    let mut i: usize = 0;
    while i < n
        invariant
            n == s.len(),
            s == clip_views(clips@),
            i <= n,
            dur_of(s, id, 0) == dur_of(s, id, i as int),
        decreases n - i,
    {
        assert(s[i as int] == clips@[i as int]@);
        if clips[i].id == id {
            return clips[i].duration();
        }
        i = i + 1;
    }
    0
}

/// Where the clip `id`, held `offset` microseconds after its start, lands
/// when the pointer is at time `t`: it snaps to another clip's edge or to
/// zero within 0.3 s, and is then pushed off any clip it would overlap.
pub fn dragged_clip_start(clips: &[Clip], id: u64, t: i64, offset: u64) -> (r: u64)
    requires
        all_fit(clip_views(clips@)),
    ensures
        r == dragged_start(clip_views(clips@), id, t as int, offset as int),
{
    let ghost s = clip_views(clips@);
    let n = clips.len();
    let dur = clip_duration(clips, id) as i128;
    let diff = (t as i128) - (offset as i128);
    let start: i128 = if diff > 0 { diff } else { 0 };
    let mut best: Option<i128> = None;
    let threshold: i128 = SNAP_THRESHOLD as i128;
    let mut dist: i128 = threshold;
    let mut i: usize = 0;
    while i < n
        invariant
            n == s.len(),
            s == clip_views(clips@),
            i <= n,
            0 <= start < 0x1_0000_0000_0000_0000,
            0 <= dur < 0x1_0000_0000_0000_0000,
            dur == dur_of(s, id, 0),
            snap_search(s, id, start as int, dur as int, i as int) == (
                match best { Some(b) => Some(b as int), None => None::<int> },
                dist as int,
            ),
            threshold == SNAP_THRESHOLD,
            0 <= dist <= SNAP_THRESHOLD,
            match best { Some(b) => -0x1_0000_0000_0000_0000 < b < 0x1_0000_0000_0000_0000, None => true },
            all_fit(s),
        decreases n - i,
    {
        let c = &clips[i];
        assert(s[i as int] == c@);
        assert(s[i as int].fits());
        if c.id != id {
            let os = c.timeline_start as i128;
            let oe = os + c.duration() as i128;
            let d1 = if start >= oe { start - oe } else { oe - start };
            if d1 < dist {
                dist = d1;
                best = Some(oe);
            }
            let d2 = if start + dur >= os { start + dur - os } else { os - start - dur };
            if d2 < dist {
                dist = d2;
                best = Some(os - dur);
            }
            let d3 = if start >= os { start - os } else { os - start };
            if d3 < dist {
                dist = d3;
                best = Some(os);
            }
        }
        i = i + 1;
    }
    if start < threshold && start < dist {
        best = Some(0);
    }
    let snapped_start: i128 = match best {
        Some(b) => if b > 0 { b } else { 0 },
        None => start,
    };
    assert(snapped_start == snapped(s, id, start as int, dur as int));
    let mut cur: i128 = snapped_start;
    let mut j: usize = 0;
    while j < n
        invariant
            n == s.len(),
            s == clip_views(clips@),
            j <= n,
            0 <= dur < 0x1_0000_0000_0000_0000,
            0 <= snapped_start < 0x1_0000_0000_0000_0000,
            cur == pushed_off(s, id, snapped_start as int, dur as int, j as int),
            -0x1_0000_0000_0000_0000 < cur < 0x1_0000_0000_0000_0000,
            all_fit(s),
        decreases n - j,
    {
        let c = &clips[j];
        assert(s[j as int] == c@);
        assert(s[j as int].fits());
        let os = c.timeline_start as i128;
        let oe = os + c.duration() as i128;
        if c.id != id && cur + dur > os && cur < oe {
            if cur + dur - os <= oe - cur {
                cur = os - dur;
            } else {
                cur = oe;
            }
        }
        j = j + 1;
    }
    assert(cur < 0x1_0000_0000_0000_0000);
    if cur > 0 { cur as u64 } else { 0 }
}


/// Shortest span a text overlay can be resized to, in microseconds.
pub const MIN_OVERLAY_SPAN: u64 = 100_000;

/// `t` held within `[lo, hi]`.
pub open spec fn clamp_int(t: int, lo: int, hi: int) -> int {
    if t < lo { lo } else if t > hi { hi } else { t }
}

/// An overlay body held `offset` after its start, dragged to time `t`: it
/// starts at `t - offset`, never before zero, and keeps its length (its end
/// keeps its distance to the start, also when it lies before the start).
pub fn moved_overlay(start: u64, end: u64, t: i64, offset: u64) -> (r: (u64, u64))
    requires
        0 <= max_int(t - offset, 0) + end - start <= u64::MAX,
    ensures
        r.0 == max_int(t - offset, 0),
        r.1 == r.0 + end - start,
{
    let diff = (t as i128) - (offset as i128);
    let s: u64 = if diff > 0 { diff as u64 } else { 0 };
    let e = (s as i128) + (end as i128) - (start as i128);
    (s, e as u64)
}

/// The start an overlay edge dragged to time `t` gets: within zero and a
/// tenth of a second before the end.
pub fn resized_overlay_start(end: u64, t: i64) -> (r: u64)
    requires
        end >= MIN_OVERLAY_SPAN,
    ensures
        r == clamp_int(t as int, 0, end - MIN_OVERLAY_SPAN),
{
    let hi = end - MIN_OVERLAY_SPAN;
    if t < 0 {
        0
    } else if (t as u64) > hi {
        hi
    } else {
        t as u64
    }
}

/// The end an overlay edge dragged to time `t` gets: no earlier than a tenth
/// of a second after the start.
pub fn resized_overlay_end(start: u64, t: i64) -> (r: u64)
    requires
        start + MIN_OVERLAY_SPAN <= u64::MAX,
    ensures
        r == max_int(t as int, start + MIN_OVERLAY_SPAN),
{
    let lo = start + MIN_OVERLAY_SPAN;
    if t < 0 || (t as u64) < lo { lo } else { t as u64 }
}

/// Where the left trim head dragged to time `t` goes: it cannot pass the
/// playhead, nor zero.
pub fn trim_left_drag(t: i64, playhead: u64) -> (r: u64)
    ensures
        r == clamp_int(t as int, 0, playhead as int),
{
    if t < 0 {
        0
    } else if (t as u64) > playhead {
        playhead
    } else {
        t as u64
    }
}

/// Where the right trim head dragged to time `t` goes: it cannot pass the
/// playhead, nor the end of the timeline.
pub fn trim_right_drag(t: i64, playhead: u64, total: u64) -> (r: u64)
    requires
        playhead <= total,
    ensures
        r == clamp_int(t as int, playhead as int, total as int),
{
    if t < 0 || (t as u64) < playhead {
        playhead
    } else if (t as u64) > total {
        total
    } else {
        t as u64
    }
}

/// The range between the trim heads, an unplaced head standing at the
/// playhead; none when neither head is placed.
pub open spec fn trim_range_of(left: Option<u64>, right: Option<u64>, ph: u64) -> Option<(u64, u64)> {
    match (left, right) {
        (None, None) => None,
        _ => {
            let l = match left { Some(l) => l, None => ph };
            let r = match right { Some(r) => r, None => ph };
            if l <= r { Some((l, r)) } else { Some((r, l)) }
        },
    }
}

/// The effective trim range `(start, end)`, or `None` if no trim head is
/// placed.
pub fn trim_range(left: Option<u64>, right: Option<u64>, playhead: u64) -> (r: Option<(u64, u64)>)
    ensures
        r == trim_range_of(left, right, playhead),
{
    if left.is_none() && right.is_none() {
        return None;
    }
    let l = match left { Some(l) => l, None => playhead };
    let r = match right { Some(r) => r, None => playhead };
    if l <= r { Some((l, r)) } else { Some((r, l)) }
}


/// What a cut between the trim heads did.
#[derive(Debug, Clone, Copy, PartialEq, Eq, Structural)]
pub enum CutOutcome {
    /// No trim head is placed.
    NoRange,
    /// No clip lay in the range.
    NothingCut,
    /// The range `[start, end)` was cut out.
    Cut { start: u64, end: u64 },
}

/// The clips, the counter and whether any clip went, after cutting `[a, b)`
/// as `Timeline::cut_range` does.
pub open spec fn cut_of(cs: Seq<ClipView>, n: u64, a: u64, b: u64) -> (Seq<ClipView>, u64, bool) {
    if b <= a || overlapping_ids(cs, a, b).len() == 0 {
        (cs, n, false)
    } else {
        cut_result(cs, n, a, b)
    }
}

/// Cut the range between the trim heads out of the timeline; after a cut
/// the playhead moves to its start.
pub fn perform_cut(timeline: &mut Timeline, left: Option<u64>, right: Option<u64>) -> (r: CutOutcome)
    requires
        all_fit(old(timeline).clip_seq()),
        trim_range_of(left, right, old(timeline).head()) matches Some((a, b)) ==> (a < b ==> old(timeline).counter()
            + crossing(old(timeline).clip_seq(), a) + crossing(old(timeline).clip_seq(), b) <= u64::MAX),
    ensures
        match trim_range_of(left, right, old(timeline).head()) {
            None => r == CutOutcome::NoRange && *final(timeline) == *old(timeline),
            Some((a, b)) => {
                let res = cut_of(old(timeline).clip_seq(), old(timeline).counter(), a, b);
                &&& final(timeline).clip_seq() == res.0
                &&& final(timeline).counter() == res.1
                &&& final(timeline).overlay_seq() == old(timeline).overlay_seq()
                &&& res.2 ==> r == CutOutcome::Cut { start: a, end: b }
                    && final(timeline).head() == (if a <= total_of(res.0) { a as int } else { total_of(res.0) as int })
                &&& !res.2 ==> r == CutOutcome::NothingCut && final(timeline).head() == old(timeline).head()
            },
        },
        old(timeline).wf() ==> final(timeline).wf(),
{
    let ph = timeline.playhead();
    match trim_range(left, right, ph) {
        None => CutOutcome::NoRange,
        Some((a, b)) => {
            if timeline.cut_range(a, b) {
                timeline.place_playhead(a);
                CutOutcome::Cut { start: a, end: b }
            } else {
                CutOutcome::NothingCut
            }
        },
    }
}


/// How near, in thousandths of the preview, a click must come to an
/// overlay's centre to select it.
pub const PICK_RADIUS: i64 = 50;

/// Squared distance, in thousandths, from an overlay's centre to `(nx, ny)`.
pub open spec fn sq_dist(o: TextOverlayView, nx: int, ny: int) -> int {
    (nx - o.x) * (nx - o.x) + (ny - o.y) * (ny - o.y)
}

/// The overlay among the first `n` whose centre is nearest to `(nx, ny)`
/// and within the pick radius (the first of equally near ones), with its
/// squared distance.
pub open spec fn closest_from(s: Seq<TextOverlayView>, nx: int, ny: int, n: int) -> (Option<u64>, int)
    decreases n,
{
    if n <= 0 || n > s.len() {
        (None, PICK_RADIUS * PICK_RADIUS)
    } else {
        let prev = closest_from(s, nx, ny, n - 1);
        let d = sq_dist(s[n - 1], nx, ny);
        if d < prev.1 { (Some(s[n - 1].id), d) } else { prev }
    }
}

/// The overlays shown at the playhead.
pub open spec fn shown_overlays(tl: Timeline) -> Seq<TextOverlayView> {
    tl.overlay_seq().filter(|o: TextOverlayView| o.shown_at(tl.head()))
}

/// The overlay shown at the playhead whose centre is nearest a click at
/// `(nx, ny)` thousandths of the preview, if one lies within the pick radius.
pub fn overlay_under(timeline: &Timeline, nx: i32, ny: i32) -> (r: Option<u64>)
    ensures
        r == closest_from(shown_overlays(*timeline), nx as int, ny as int, shown_overlays(*timeline).len() as int).0,
{
    let ph = timeline.playhead();
    let visible = timeline.text_overlays_at(ph);
    let ghost s = shown_overlays(*timeline);
    let n = visible.len();
    let mut best: Option<u64> = None;
    let radius: i128 = PICK_RADIUS as i128;
    assert(radius == 50);
    let mut best_d: i128 = radius * radius;
    let mut i: usize = 0;
    while i < n
        invariant
            n == s.len(),
            n == visible@.len(),
            forall|k: int| 0 <= k < visible@.len() ==> (#[trigger] visible@[k])@ == s[k],
            i <= n,
            closest_from(s, nx as int, ny as int, i as int) == (best, best_d as int),
        decreases n - i,
    {
        let o = visible[i];
        assert(o@ == s[i as int]);
        let dx = (nx as i128) - (o.x as i128);
        let dy = (ny as i128) - (o.y as i128);
        proof {
            assert(0 <= dx * dx <= 0x4_0000_0000_0000_0000) by (nonlinear_arith)
                requires -0x2_0000_0000 <= dx <= 0x2_0000_0000;
            assert(0 <= dy * dy <= 0x4_0000_0000_0000_0000) by (nonlinear_arith)
                requires -0x2_0000_0000 <= dy <= 0x2_0000_0000;
        }
        let d = dx * dx + dy * dy;
        if d < best_d {
            best_d = d;
            best = Some(o.id);
        }
        i = i + 1;
    }
    best
}

/// Where, in thousandths of the preview, a pointer `offset` pixels into a
/// preview `size` pixels across stands: within 0 and 1000.
pub fn drag_position(offset: i64, size: u32) -> (r: u32)
    requires
        size > 0,
    ensures
        r == clamp_int((offset * 1000) / (size as int), 0, 1000),
{
    if offset <= 0 {
        proof {
            assert((offset * 1000) / (size as int) <= 0) by (nonlinear_arith)
                requires offset <= 0, size > 0;
        }
        return 0;
    }
    let q = ((offset as u128) * 1000) / (size as u128);
    if q > 1000 { 1000 } else { q as u32 }
}

/// Which recording buttons are enabled, and whether the pause button
/// resumes.
#[derive(Debug, Clone, Copy, PartialEq, Eq, Structural)]
pub struct RecordControls {
    pub record: bool,
    pub pause: bool,
    pub pause_resumes: bool,
    pub stop: bool,
}

/// Record only when idle, with ffmpeg found and playback stopped; pause
/// while recording, resume while paused; stop while a session runs.
pub fn record_controls(state: RecordingState, ffmpeg_ok: bool, playback: PlaybackState) -> (c: RecordControls)
    ensures
        c.record == (state == RecordingState::Idle && ffmpeg_ok && playback == PlaybackState::Stopped),
        c.pause_resumes == (state == RecordingState::Paused),
        c.pause == (state == RecordingState::Paused || state == RecordingState::Recording),
        c.stop == (state != RecordingState::Idle),
{
    RecordControls {
        record: state == RecordingState::Idle && ffmpeg_ok && playback == PlaybackState::Stopped,
        pause: state == RecordingState::Paused || state == RecordingState::Recording,
        pause_resumes: state == RecordingState::Paused,
        stop: state != RecordingState::Idle,
    }
}

/// The playback buttons shown under the preview.
#[derive(Debug, Clone, Copy, PartialEq, Eq, Structural)]
pub enum Transport {
    /// Pause and Stop, while playing.
    PauseStop,
    /// Resume and Stop, while paused.
    ResumeStop,
    /// Play, enabled or not.
    Play { enabled: bool },
}

/// Play is offered when stopped, and enabled when the timeline has clips,
/// nothing is recording and ffmpeg was found.
pub fn transport(playback: PlaybackState, timeline_empty: bool, recording: RecordingState, ffmpeg_ok: bool) -> (t: Transport)
    ensures
        playback == PlaybackState::Playing ==> t == Transport::PauseStop,
        playback == PlaybackState::Paused ==> t == Transport::ResumeStop,
        playback == PlaybackState::Stopped ==> t == (Transport::Play {
            enabled: !timeline_empty && recording == RecordingState::Idle && ffmpeg_ok,
        }),
{
    match playback {
        PlaybackState::Playing => Transport::PauseStop,
        PlaybackState::Paused => Transport::ResumeStop,
        PlaybackState::Stopped => Transport::Play {
            enabled: !timeline_empty && recording == RecordingState::Idle && ffmpeg_ok,
        },
    }
}

/// The window keeps repainting while recording, playing, exporting or
/// waiting for a scrub frame.
pub fn needs_repaint(recording: RecordingState, playback: PlaybackState, scrub_busy: bool, exporting: bool) -> (b: bool)
    ensures
        b == (recording == RecordingState::Recording || playback == PlaybackState::Playing || scrub_busy || exporting),
{
    recording == RecordingState::Recording || playback == PlaybackState::Playing || scrub_busy || exporting
}

/// Half a frame dimension for the scrub preview, at least 2 and even.
pub open spec fn scrub_dim(n: u32) -> u32 {
    let h: u32 = if n / 2 >= 2 { n / 2 } else { 2 };
    (h - h % 2) as u32
}

/// The scrub preview's frame size: half the native size, at least 2 and
/// even in each dimension.
pub fn scrub_size(width: u32, height: u32) -> (r: (u32, u32))
    ensures
        r == (scrub_dim(width), scrub_dim(height)),
{
    let w = if width / 2 >= 2 { width / 2 } else { 2 };
    let h = if height / 2 >= 2 { height / 2 } else { 2 };
    (w - w % 2, h - h % 2)
}

} // verus!
