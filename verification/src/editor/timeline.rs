//! The ordered collection of clips and text overlays, and the playhead.
use vstd::prelude::*;
use crate::editor::clip::{Clip, ClipView};
use crate::editor::text_overlay::{TextOverlay, TextOverlayView};
use crate::text::{push_str, str_chars, string_from_chars};

verus! {

pub open spec fn max_nat(a: nat, b: nat) -> nat {
    if a >= b { a } else { b }
}

/// The views of a sequence of clips.
pub open spec fn clip_views(v: Seq<Clip>) -> Seq<ClipView> {
    v.map_values(|c: Clip| c@)
}

/// The views of a sequence of text overlays.
pub open spec fn overlay_views(v: Seq<TextOverlay>) -> Seq<TextOverlayView> {
    v.map_values(|o: TextOverlay| o@)
}

/// End of the timeline: the largest clip end, or zero when there is no clip.
pub open spec fn total_of(s: Seq<ClipView>) -> nat
    decreases s.len(),
{
    if s.len() == 0 {
        0
    } else {
        max_nat(total_of(s.drop_last()), s.last().end_pos())
    }
}

/// Every clip end fits the time type.
pub open spec fn all_fit(s: Seq<ClipView>) -> bool {
    forall|i: int| 0 <= i < s.len() ==> #[trigger] s[i].fits()
}

/// Inserts `c` after every clip that starts no later than it, scanning from
/// the back: one step of a stable insertion sort.
pub open spec fn insert_by_start(s: Seq<ClipView>, c: ClipView) -> Seq<ClipView>
    decreases s.len(),
{
    if s.len() == 0 {
        seq![c]
    } else if s.last().timeline_start <= c.timeline_start {
        s.push(c)
    } else {
        insert_by_start(s.drop_last(), c).push(s.last())
    }
}

/// The stable sort of the clips by timeline start: clips that start at the
/// same time keep their relative order.
pub open spec fn sort_by_start(s: Seq<ClipView>) -> Seq<ClipView>
    decreases s.len(),
{
    if s.len() == 0 {
        s
    } else {
        insert_by_start(sort_by_start(s.drop_last()), s.last())
    }
}

/// `pos` held within `[0, total]`.
pub open spec fn clamp_to(pos: int, total: nat) -> int {
    if pos < 0 { 0 } else if pos <= total { pos } else { total as int }
}

/// The clips that start at `v` are picked by this predicate.
pub open spec fn starts_at(v: u64) -> spec_fn(ClipView) -> bool {
    |c: ClipView| c.timeline_start == v
}

/// Clips are in non-decreasing order of timeline start.
pub open spec fn sorted_by_start(s: Seq<ClipView>) -> bool {
    forall|i: int, j: int| 0 <= i <= j < s.len() ==> s[i].timeline_start <= s[j].timeline_start
}

/// The clips whose id differs from `id`, in order.
pub open spec fn without_clip(s: Seq<ClipView>, id: u64) -> Seq<ClipView> {
    s.filter(|c: ClipView| c.id != id)
}

/// The overlays whose id differs from `id`, in order.
pub open spec fn without_overlay(s: Seq<TextOverlayView>, id: u64) -> Seq<TextOverlayView> {
    s.filter(|o: TextOverlayView| o.id != id)
}

/// No two clips share an id.
pub open spec fn distinct_clip_ids(s: Seq<ClipView>) -> bool {
    forall|i: int, j: int| 0 <= i < j < s.len() ==> #[trigger] s[i].id != #[trigger] s[j].id
}

/// No two overlays share an id.
pub open spec fn distinct_overlay_ids(s: Seq<TextOverlayView>) -> bool {
    forall|i: int, j: int| 0 <= i < j < s.len() ==> #[trigger] s[i].id != #[trigger] s[j].id
}

/// Clip ends fit the time type, ids are distinct across clips and overlays,
/// and every id is below the counter `n`.
pub open spec fn wf_parts(cs: Seq<ClipView>, os: Seq<TextOverlayView>, n: u64) -> bool {
    &&& all_fit(cs)
    &&& distinct_clip_ids(cs)
    &&& distinct_overlay_ids(os)
    &&& forall|i: int| 0 <= i < cs.len() ==> #[trigger] cs[i].id < n
    &&& forall|j: int| 0 <= j < os.len() ==> #[trigger] os[j].id < n
    &&& forall|i: int, j: int| 0 <= i < cs.len() && 0 <= j < os.len() ==> #[trigger] cs[i].id != #[trigger] os[j].id
}

/// Whether `at` lies strictly inside the clip, so that splitting there
/// leaves two non-empty parts.
pub open spec fn cuts(c: ClipView, at: u64) -> bool {
    c.timeline_start < at && at < c.end_pos()
}

/// Source position that corresponds to timeline position `at` in `c`.
pub open spec fn source_at(c: ClipView, at: u64) -> int {
    c.trim_start + (at - c.timeline_start)
}

/// The part of `c` before `at`.
pub open spec fn first_half(c: ClipView, at: u64) -> ClipView {
    ClipView { trim_end: source_at(c, at) as u64, ..c }
}

/// The part of `c` from `at` on, under the new id `id`, labelled with " (2)".
pub open spec fn second_half(c: ClipView, at: u64, id: u64) -> ClipView {
    ClipView {
        id: id,
        trim_start: source_at(c, at) as u64,
        timeline_start: at,
        label: c.label + " (2)"@,
        ..c
    }
}

/// `t + delta`, floored at zero.
pub open spec fn shifted(t: u64, delta: i64) -> int {
    if t + delta < 0 { 0 } else { t + delta }
}

/// A clip after a ripple shift: moved by `delta` when it starts at or after
/// `threshold` and is not the excluded clip.
pub open spec fn ripple_clip(c: ClipView, threshold: u64, delta: i64, exclude_id: u64) -> ClipView {
    if c.id != exclude_id && c.timeline_start >= threshold {
        ClipView { timeline_start: shifted(c.timeline_start, delta) as u64, ..c }
    } else {
        c
    }
}

/// An overlay after a ripple shift: moved by `delta` when it starts at or
/// after `threshold`.
pub open spec fn ripple_overlay(o: TextOverlayView, threshold: u64, delta: i64) -> TextOverlayView {
    if o.start >= threshold {
        TextOverlayView { start: shifted(o.start, delta) as u64, end: shifted(o.end, delta) as u64, ..o }
    } else {
        o
    }
}

/// The shift of the clips keeps every moved clip inside the time type.
pub open spec fn ripple_fits(s: Seq<ClipView>, threshold: u64, delta: i64, exclude_id: u64) -> bool {
    forall|i: int| 0 <= i < s.len() && s[i].id != exclude_id && s[i].timeline_start >= threshold
        ==> shifted(#[trigger] s[i].timeline_start, delta) + s[i].span() <= u64::MAX
}

/// The shift of the overlays keeps every moved bound inside the time type.
pub open spec fn ripple_overlays_fit(s: Seq<TextOverlayView>, threshold: u64, delta: i64) -> bool {
    forall|i: int| 0 <= i < s.len() && #[trigger] s[i].start >= threshold
        ==> shifted(s[i].start, delta) <= u64::MAX && shifted(s[i].end, delta) <= u64::MAX
}

/// A ripple shift moves only the overlays that start at or after the
/// threshold: one that starts before it keeps its place, one that starts at
/// or after it has both ends moved by `delta` (not below zero). Either way
/// its id, text, position and style stay.
pub proof fn lemma_ripple_moves_only_later_overlays(os: Seq<TextOverlayView>, threshold: u64, delta: i64)
    requires
        ripple_overlays_fit(os, threshold, delta),
    ensures
        os.map_values(|o: TextOverlayView| ripple_overlay(o, threshold, delta)).len() == os.len(),
        forall|i: int| 0 <= i < os.len() && #[trigger] os[i].start < threshold
            ==> os.map_values(|o: TextOverlayView| ripple_overlay(o, threshold, delta))[i] == os[i],
        forall|i: int| 0 <= i < os.len() && #[trigger] os[i].start >= threshold ==> {
            let r = os.map_values(|o: TextOverlayView| ripple_overlay(o, threshold, delta))[i];
            &&& r.start == (if os[i].start + delta < 0 { 0 } else { os[i].start + delta })
            &&& r.end == (if os[i].end + delta < 0 { 0 } else { os[i].end + delta })
            &&& r.id == os[i].id && r.text == os[i].text && r.x == os[i].x && r.y == os[i].y
            &&& r.font_size == os[i].font_size && r.color == os[i].color
        },
{
    assert forall|i: int| 0 <= i < os.len() && #[trigger] os[i].start >= threshold implies {
        let r = os.map_values(|o: TextOverlayView| ripple_overlay(o, threshold, delta))[i];
        &&& r.start == (if os[i].start + delta < 0 { 0 } else { os[i].start + delta })
        &&& r.end == (if os[i].end + delta < 0 { 0 } else { os[i].end + delta })
        &&& r.id == os[i].id && r.text == os[i].text && r.x == os[i].x && r.y == os[i].y
        &&& r.font_size == os[i].font_size && r.color == os[i].color
    } by {
        assert(shifted(os[i].start, delta) <= u64::MAX && shifted(os[i].end, delta) <= u64::MAX);
    }
}

/// A ripple shift moves only the clips that start at or after the
/// threshold, other than the excluded one, by `delta` (not below zero); the
/// rest stay where they were. Every clip is still there afterwards, in its
/// place or moved.
pub proof fn lemma_ripple_moves_only_later_clips(s: Seq<ClipView>, threshold: u64, delta: i64, exclude_id: u64)
    requires
        ripple_fits(s, threshold, delta, exclude_id),
    ensures
        ({
            let r = sort_by_start(s.map_values(|c: ClipView| ripple_clip(c, threshold, delta, exclude_id)));
            &&& r.len() == s.len()
            &&& forall|i: int| #![trigger s[i]] 0 <= i < s.len() && (s[i].id == exclude_id || s[i].timeline_start < threshold)
                ==> r.contains(s[i])
            &&& forall|i: int| #![trigger s[i]] 0 <= i < s.len() && s[i].id != exclude_id && s[i].timeline_start >= threshold
                ==> r.contains(ClipView {
                    timeline_start: (if s[i].timeline_start + delta < 0 { 0 } else { s[i].timeline_start + delta }) as u64,
                    ..s[i]
                })
        }),
{
    let m = s.map_values(|c: ClipView| ripple_clip(c, threshold, delta, exclude_id));
    lemma_sort_by_start(m);
    assert forall|i: int| #![trigger s[i]] 0 <= i < s.len() && (s[i].id == exclude_id || s[i].timeline_start < threshold)
        implies sort_by_start(m).contains(s[i]) by {
        assert(m[i] == s[i]);
        assert(m.contains(m[i]));
    }
    assert forall|i: int| #![trigger s[i]] 0 <= i < s.len() && s[i].id != exclude_id && s[i].timeline_start >= threshold
        implies sort_by_start(m).contains(ClipView {
            timeline_start: (if s[i].timeline_start + delta < 0 { 0 } else { s[i].timeline_start + delta }) as u64,
            ..s[i]
        }) by {
        assert(m.contains(m[i]));
    }
}

/// Whether splitting the clip with id `id` at `at` takes effect.
pub open spec fn splits(s: Seq<ClipView>, id: u64, at: u64) -> bool {
    exists|i: int| first_clip_index(s, id, i) && cuts(s[i], at)
}

/// The clips and counter after splitting the first clip with id `id` at `at`;
/// unchanged when it does not take effect.
pub open spec fn split_step(s: Seq<ClipView>, n: u64, id: u64, at: u64) -> (Seq<ClipView>, u64) {
    if splits(s, id, at) {
        let i = choose|i: int| first_clip_index(s, id, i) && cuts(s[i], at);
        (sort_by_start(s.update(i, first_half(s[i], at)).push(second_half(s[i], at, n))), (n + 1) as u64)
    } else {
        (s, n)
    }
}

/// `i` is the first index of a clip with id `id`.
pub open spec fn first_clip_index(s: Seq<ClipView>, id: u64, i: int) -> bool {
    0 <= i < s.len() && s[i].id == id && forall|j: int| 0 <= j < i ==> s[j].id != id
}

/// `i` is the first index of an overlay with id `id`.
pub open spec fn first_overlay_index(s: Seq<TextOverlayView>, id: u64, i: int) -> bool {
    0 <= i < s.len() && s[i].id == id && forall|j: int| 0 <= j < i ==> s[j].id != id
}

pub open spec fn has_clip(s: Seq<ClipView>, id: u64) -> bool {
    exists|i: int| 0 <= i < s.len() && s[i].id == id
}

pub open spec fn has_overlay(s: Seq<TextOverlayView>, id: u64) -> bool {
    exists|i: int| 0 <= i < s.len() && s[i].id == id
}

/// `c` with the given id and timeline start.
pub open spec fn placed(c: ClipView, id: u64, start: u64) -> ClipView {
    ClipView { id: id, timeline_start: start, ..c }
}

/// `o` with the given id.
pub open spec fn with_overlay_id(o: TextOverlayView, id: u64) -> TextOverlayView {
    TextOverlayView { id: id, ..o }
}

pub proof fn lemma_filter_take_step<A>(s: Seq<A>, p: spec_fn(A) -> bool, i: int)
    requires
        0 <= i < s.len(),
    ensures
        s.take(i + 1).filter(p) == (if p(s[i]) {
            s.take(i).filter(p).push(s[i])
        } else {
            s.take(i).filter(p)
        }),
{
    reveal_with_fuel(Seq::filter, 1);
    assert(s.take(i + 1).drop_last() =~= s.take(i));
}

/// The total is the largest clip end: no clip ends later, and some clip ends
/// there unless there are none.
pub proof fn lemma_total_facts(s: Seq<ClipView>)
    ensures
        forall|i: int| 0 <= i < s.len() ==> #[trigger] s[i].end_pos() <= total_of(s),
        s.len() == 0 ==> total_of(s) == 0,
        s.len() > 0 ==> exists|i: int| 0 <= i < s.len() && #[trigger] s[i].end_pos() == total_of(s),
    decreases s.len(),
{
    if s.len() > 0 {
        let t = s.drop_last();
        lemma_total_facts(t);
        assert forall|i: int| 0 <= i < s.len() implies #[trigger] s[i].end_pos() <= total_of(s) by {
            if i < t.len() { assert(t[i] == s[i]); }
        }
        if total_of(t) >= s.last().end_pos() && t.len() > 0 {
            let k = choose|k: int| 0 <= k < t.len() && #[trigger] t[k].end_pos() == total_of(t);
            assert(s[k].end_pos() == total_of(s));
        } else {
            assert(s[s.len() - 1].end_pos() == total_of(s));
        }
    }
}

/// Two clip sequences with the same largest end have the same total.
proof fn lemma_total_eq(s: Seq<ClipView>, t: Seq<ClipView>)
    requires
        s.len() > 0,
        forall|j: int| 0 <= j < t.len() ==> #[trigger] t[j].end_pos() <= total_of(s),
        exists|j: int| 0 <= j < t.len() && #[trigger] t[j].end_pos() == total_of(s),
    ensures
        total_of(t) == total_of(s),
{
    lemma_total_facts(t);
    let j = choose|j: int| 0 <= j < t.len() && #[trigger] t[j].end_pos() == total_of(s);
    assert(t[j].end_pos() <= total_of(t));
    let k = choose|k: int| 0 <= k < t.len() && #[trigger] t[k].end_pos() == total_of(t);
    assert(t[k].end_pos() <= total_of(s));
}

/// Splitting a clip leaves the end of the timeline where it was.
pub proof fn lemma_split_keeps_total(s: Seq<ClipView>, n: u64, id: u64, at: u64)
    requires
        all_fit(s),
    ensures
        total_of(split_step(s, n, id, at).0) == total_of(s),
{
    if splits(s, id, at) {
        let i = choose|i: int| first_clip_index(s, id, i) && cuts(s[i], at);
        let c = s[i];
        let u = s.update(i, first_half(c, at));
        let v = u.push(second_half(c, at, n));
        let t = sort_by_start(v);
        assert(s[i].fits());
        lemma_total_facts(s);
        lemma_sort_by_start(v);
        assert forall|j: int| 0 <= j < t.len() implies #[trigger] t[j].end_pos() <= total_of(s) by {
            assert(t.contains(t[j]));
            let k = choose|k: int| 0 <= k < v.len() && v[k] == t[j];
            if k < s.len() && k != i {
                assert(s[k].end_pos() <= total_of(s));
            } else {
                assert(s[i].end_pos() <= total_of(s));
            }
        }
        let k = choose|k: int| 0 <= k < s.len() && #[trigger] s[k].end_pos() == total_of(s);
        let w = if k == i { second_half(c, at, n) } else { s[k] };
        if k == i {
            assert(v[s.len() as int] == w);
        } else {
            assert(v[k] == w);
        }
        assert(v.contains(w));
        assert(t.contains(w));
        let m = choose|m: int| 0 <= m < t.len() && t[m] == w;
        assert(t[m].end_pos() == total_of(s));
        lemma_total_eq(s, t);
    }
}

/// A filter of clips in order of start is still in order of start.
proof fn lemma_filter_sorted(s: Seq<ClipView>, p: spec_fn(ClipView) -> bool)
    requires
        sorted_by_start(s),
    ensures
        sorted_by_start(s.filter(p)),
    decreases s.len(),
{
    reveal_with_fuel(Seq::filter, 1);
    if s.len() > 0 {
        let t = s.drop_last();
        assert(sorted_by_start(t));
        lemma_filter_sorted(t, p);
        lemma_clip_filter(t, p);
        let ft = t.filter(p);
        let f = s.filter(p);
        assert forall|i: int, j: int| 0 <= i <= j < f.len() implies f[i].timeline_start <= f[j].timeline_start by {
            if j == ft.len() && i < j {
                assert(ft.contains(ft[i]));
                let m = choose|m: int| 0 <= m < t.len() && t[m] == ft[i];
                assert(s[m].timeline_start <= s[s.len() - 1].timeline_start);
            }
        }
    }
}

/// A filter keeps only elements of its input, and keeps clip ids distinct.
pub proof fn lemma_clip_filter(s: Seq<ClipView>, p: spec_fn(ClipView) -> bool)
    ensures
        forall|x: ClipView| #[trigger] s.filter(p).contains(x) ==> s.contains(x),
        forall|id: u64| #[trigger] has_clip(s.filter(p), id) ==> has_clip(s, id),
        distinct_clip_ids(s) ==> distinct_clip_ids(s.filter(p)),
        all_fit(s) ==> all_fit(s.filter(p)),
    decreases s.len(),
{
    reveal_with_fuel(Seq::filter, 1);
    if s.len() > 0 {
        let t = s.drop_last();
        lemma_clip_filter(t, p);
        let ft = t.filter(p);
        let f = s.filter(p);
        assert forall|x: ClipView| #[trigger] f.contains(x) implies s.contains(x) by {
            let k = choose|k: int| 0 <= k < f.len() && f[k] == x;
            if k < ft.len() {
                assert(ft.contains(x));
                let m = choose|m: int| 0 <= m < t.len() && t[m] == x;
                assert(s[m] == x);
            } else {
                assert(s[s.len() - 1] == x);
            }
        }
        assert forall|id: u64| #[trigger] has_clip(f, id) implies has_clip(s, id) by {
            let k = choose|k: int| 0 <= k < f.len() && f[k].id == id;
            if k < ft.len() {
                assert(has_clip(ft, id));
                let m = choose|m: int| 0 <= m < t.len() && t[m].id == id;
                assert(s[m].id == id);
            } else {
                assert(s[s.len() - 1].id == id);
            }
        }
        if distinct_clip_ids(s) {
            assert(distinct_clip_ids(t));
            assert forall|i: int, j: int| 0 <= i < j < f.len() implies #[trigger] f[i].id != #[trigger] f[j].id by {
                if j == ft.len() {
                    if f[i].id == s.last().id {
                        assert(has_clip(ft, s.last().id));
                        let m = choose|m: int| 0 <= m < t.len() && t[m].id == s.last().id;
                        assert(s[m].id == s[s.len() - 1].id);
                    }
                }
            }
        }
        if all_fit(s) {
            assert forall|i: int| 0 <= i < f.len() implies #[trigger] f[i].fits() by {
                assert(f.contains(f[i]));
                let m = choose|m: int| 0 <= m < s.len() && s[m] == f[i];
                assert(s[m].fits());
            }
        }
    }
}

/// A filter keeps only overlays of its input, and keeps their ids distinct.
pub proof fn lemma_overlay_filter(s: Seq<TextOverlayView>, p: spec_fn(TextOverlayView) -> bool)
    ensures
        forall|id: u64| #[trigger] has_overlay(s.filter(p), id) ==> has_overlay(s, id),
        distinct_overlay_ids(s) ==> distinct_overlay_ids(s.filter(p)),
    decreases s.len(),
{
    reveal_with_fuel(Seq::filter, 1);
    if s.len() > 0 {
        let t = s.drop_last();
        lemma_overlay_filter(t, p);
        let ft = t.filter(p);
        let f = s.filter(p);
        assert forall|id: u64| #[trigger] has_overlay(f, id) implies has_overlay(s, id) by {
            let k = choose|k: int| 0 <= k < f.len() && f[k].id == id;
            if k < ft.len() {
                assert(has_overlay(ft, id));
                let m = choose|m: int| 0 <= m < t.len() && t[m].id == id;
                assert(s[m].id == id);
            } else {
                assert(s[s.len() - 1].id == id);
            }
        }
        if distinct_overlay_ids(s) {
            assert(distinct_overlay_ids(t));
            assert forall|i: int, j: int| 0 <= i < j < f.len() implies #[trigger] f[i].id != #[trigger] f[j].id by {
                if j == ft.len() {
                    if f[i].id == s.last().id {
                        assert(has_overlay(ft, s.last().id));
                        let m = choose|m: int| 0 <= m < t.len() && t[m].id == s.last().id;
                        assert(s[m].id == s[s.len() - 1].id);
                    }
                }
            }
        }
    }
}

/// `wf_parts` restated through `has_clip` and `has_overlay`.
proof fn lemma_wf_parts_by_ids(cs: Seq<ClipView>, os: Seq<TextOverlayView>, n: u64)
    requires
        all_fit(cs),
        distinct_clip_ids(cs),
        distinct_overlay_ids(os),
        forall|x: u64| #[trigger] has_clip(cs, x) ==> x < n && !has_overlay(os, x),
        forall|x: u64| #[trigger] has_overlay(os, x) ==> x < n,
    ensures
        wf_parts(cs, os, n),
{
    assert forall|i: int| 0 <= i < cs.len() implies #[trigger] cs[i].id < n by {
        assert(has_clip(cs, cs[i].id));
    }
    assert forall|j: int| 0 <= j < os.len() implies #[trigger] os[j].id < n by {
        assert(has_overlay(os, os[j].id));
    }
    assert forall|i: int, j: int| 0 <= i < cs.len() && 0 <= j < os.len() implies #[trigger] cs[i].id != #[trigger] os[j].id by {
        assert(has_clip(cs, cs[i].id));
        assert(has_overlay(os, os[j].id));
    }
}

proof fn lemma_insert_at(s: Seq<ClipView>, c: ClipView, idx: int)
    requires
        0 <= idx <= s.len(),
        forall|j: int| idx <= j < s.len() ==> s[j].timeline_start > c.timeline_start,
        idx == 0 || s[idx - 1].timeline_start <= c.timeline_start,
    ensures
        insert_by_start(s, c) == s.insert(idx, c),
    decreases s.len(),
{
    if s.len() == 0 {
        assert(s.insert(idx, c) =~= seq![c]);
    } else if idx == s.len() {
        assert(s.insert(idx, c) =~= s.push(c));
    } else {
        lemma_insert_at(s.drop_last(), c, idx);
        assert(s.drop_last().insert(idx, c).push(s.last()) =~= s.insert(idx, c));
    }
}

proof fn lemma_insert_facts(s: Seq<ClipView>, c: ClipView)
    ensures
        insert_by_start(s, c).len() == s.len() + 1,
        insert_by_start(s, c).to_multiset() == s.to_multiset().insert(c),
        forall|x: ClipView| #[trigger] insert_by_start(s, c).contains(x) <==> (x == c || s.contains(x)),
        sorted_by_start(s) ==> sorted_by_start(insert_by_start(s, c)),
        forall|id: u64| #[trigger] has_clip(insert_by_start(s, c), id) <==> (c.id == id || has_clip(s, id)),
        distinct_clip_ids(s) && !has_clip(s, c.id) ==> distinct_clip_ids(insert_by_start(s, c)),
    decreases s.len(),
{
    broadcast use vstd::seq_lib::group_to_multiset_ensures;
    let r = insert_by_start(s, c);
    if s.len() == 0 {
        assert(r == seq![c]);
        assert(s =~= Seq::<ClipView>::empty());
        assert(seq![c] =~= Seq::<ClipView>::empty().push(c));
        assert forall|x: ClipView| #[trigger] r.contains(x) <==> (x == c || s.contains(x)) by {
            if x == c { assert(r[0] == c); }
        }
        assert forall|id: u64| has_clip(r, id) <==> (c.id == id || has_clip(s, id)) by {
            if c.id == id { assert(r[0].id == id); }
        }
    } else if s.last().timeline_start <= c.timeline_start {
        assert(r == s.push(c));
        assert forall|x: ClipView| #[trigger] r.contains(x) <==> (x == c || s.contains(x)) by {
            if x == c { assert(r[s.len() as int] == c); }
            if s.contains(x) {
                let k = choose|k: int| 0 <= k < s.len() && s[k] == x;
                assert(r[k] == x);
            }
        }
        assert forall|id: u64| has_clip(r, id) <==> (c.id == id || has_clip(s, id)) by {
            if c.id == id { assert(r[s.len() as int].id == id); }
            if has_clip(s, id) {
                let k = choose|k: int| 0 <= k < s.len() && s[k].id == id;
                assert(r[k].id == id);
            }
            if has_clip(r, id) {
                let k = choose|k: int| 0 <= k < r.len() && r[k].id == id;
                if k < s.len() { assert(s[k].id == id); }
            }
        }
        if sorted_by_start(s) {
            assert forall|i: int, j: int| 0 <= i <= j < r.len() implies r[i].timeline_start <= r[j].timeline_start by {
                if j == s.len() && i < j {
                    assert(s[i].timeline_start <= s[s.len() - 1].timeline_start);
                }
            }
        }
        if distinct_clip_ids(s) && !has_clip(s, c.id) {
            assert forall|i: int, j: int| 0 <= i < j < r.len() implies #[trigger] r[i].id != #[trigger] r[j].id by {
                if j == s.len() {
                    assert(s[i].id != c.id);
                }
            }
        }
    } else {
        let t = s.drop_last();
        let l = s.last();
        lemma_insert_facts(t, c);
        let q = insert_by_start(t, c);
        assert(r == q.push(l));
        assert(s =~= t.push(l));
        assert forall|x: ClipView| #[trigger] r.contains(x) <==> (x == c || s.contains(x)) by {
            if r.contains(x) {
                let k = choose|k: int| 0 <= k < r.len() && r[k] == x;
                if k < q.len() {
                    assert(q.contains(x));
                    if x != c {
                        let m = choose|m: int| 0 <= m < t.len() && t[m] == x;
                        assert(s[m] == x);
                    }
                } else {
                    assert(s[s.len() - 1] == x);
                }
            }
            if x == c {
                assert(q.contains(c));
                let k = choose|k: int| 0 <= k < q.len() && q[k] == c;
                assert(r[k] == c);
            }
            if s.contains(x) {
                let k = choose|k: int| 0 <= k < s.len() && s[k] == x;
                if k < t.len() {
                    assert(t[k] == x);
                    assert(q.contains(x));
                    let m = choose|m: int| 0 <= m < q.len() && q[m] == x;
                    assert(r[m] == x);
                } else {
                    assert(r[q.len() as int] == x);
                }
            }
        }
        assert forall|id: u64| has_clip(r, id) <==> (c.id == id || has_clip(s, id)) by {
            if has_clip(r, id) {
                let k = choose|k: int| 0 <= k < r.len() && r[k].id == id;
                if k < q.len() {
                    assert(has_clip(q, id));
                    if c.id != id {
                        let m = choose|m: int| 0 <= m < t.len() && t[m].id == id;
                        assert(s[m].id == id);
                    }
                } else {
                    assert(s[s.len() - 1].id == id);
                }
            }
            if c.id == id || has_clip(s, id) {
                if c.id == id || has_clip(t, id) {
                    assert(has_clip(q, id));
                    let m = choose|m: int| 0 <= m < q.len() && q[m].id == id;
                    assert(r[m].id == id);
                } else {
                    let k = choose|k: int| 0 <= k < s.len() && s[k].id == id;
                    if k < t.len() { assert(t[k].id == id); }
                    assert(r[q.len() as int].id == id);
                }
            }
        }
        if sorted_by_start(s) {
            assert(sorted_by_start(t));
            assert forall|i: int, j: int| 0 <= i <= j < r.len() implies r[i].timeline_start <= r[j].timeline_start by {
                if j == q.len() && i < j {
                    // every element of q is c or an element of t, all no later than l
                    assert(q.contains(q[i]));
                    if q[i] != c {
                        let m = choose|m: int| 0 <= m < t.len() && t[m] == q[i];
                        assert(s[m].timeline_start <= s[s.len() - 1].timeline_start);
                    }
                }
            }
        }
        if distinct_clip_ids(s) && !has_clip(s, c.id) {
            assert(distinct_clip_ids(t));
            assert(!has_clip(t, c.id)) by {
                if has_clip(t, c.id) {
                    let m = choose|m: int| 0 <= m < t.len() && t[m].id == c.id;
                    assert(s[m].id == c.id);
                }
            }
            assert forall|i: int, j: int| 0 <= i < j < r.len() implies #[trigger] r[i].id != #[trigger] r[j].id by {
                if j == q.len() {
                    if r[i].id == l.id {
                        assert(has_clip(q, l.id));
                        if c.id == l.id {
                            assert(s[s.len() - 1].id == c.id);
                        } else {
                            let m = choose|m: int| 0 <= m < t.len() && t[m].id == l.id;
                            assert(s[m].id == s[s.len() - 1].id);
                        }
                    }
                }
            }
        }
    }
}

/// The stable sort by start yields clips in order of start, as a
/// permutation of its input: the same multiset of clips.
pub proof fn lemma_sort_by_start(s: Seq<ClipView>)
    ensures
        sort_by_start(s).len() == s.len(),
        sort_by_start(s).to_multiset() == s.to_multiset(),
        sorted_by_start(sort_by_start(s)),
        forall|x: ClipView| #[trigger] sort_by_start(s).contains(x) <==> s.contains(x),
        forall|id: u64| #[trigger] has_clip(sort_by_start(s), id) <==> has_clip(s, id),
        distinct_clip_ids(s) ==> distinct_clip_ids(sort_by_start(s)),
    decreases s.len(),
{
    broadcast use vstd::seq_lib::group_to_multiset_ensures;
    if s.len() == 0 {
    } else {
        let t = s.drop_last();
        lemma_sort_by_start(t);
        lemma_insert_facts(sort_by_start(t), s.last());
        assert(s =~= t.push(s.last()));
        assert forall|x: ClipView| #[trigger] sort_by_start(s).contains(x) <==> s.contains(x) by {
            if s.contains(x) {
                let k = choose|k: int| 0 <= k < s.len() && s[k] == x;
                if k < t.len() { assert(t[k] == x); assert(t.contains(x)); }
            }
            if t.contains(x) {
                let k = choose|k: int| 0 <= k < t.len() && t[k] == x;
                assert(s[k] == x);
            }
        }
        assert forall|id: u64| has_clip(sort_by_start(s), id) <==> has_clip(s, id) by {
            if has_clip(s, id) {
                let k = choose|k: int| 0 <= k < s.len() && s[k].id == id;
                if k < t.len() { assert(t[k].id == id); }
            }
            if has_clip(t, id) {
                let k = choose|k: int| 0 <= k < t.len() && t[k].id == id;
                assert(s[k].id == id);
            }
        }
        if distinct_clip_ids(s) {
            assert(distinct_clip_ids(t));
            assert(!has_clip(t, s.last().id)) by {
                if has_clip(t, s.last().id) {
                    let m = choose|m: int| 0 <= m < t.len() && t[m].id == s.last().id;
                    assert(s[m].id == s[s.len() - 1].id);
                }
            }
        }
    }
}

/// Sorting clips that are already in order of start changes nothing.
pub proof fn lemma_sort_of_sorted(s: Seq<ClipView>)
    requires
        sorted_by_start(s),
    ensures
        sort_by_start(s) == s,
    decreases s.len(),
{
    if s.len() > 0 {
        let t = s.drop_last();
        assert(sorted_by_start(t));
        lemma_sort_of_sorted(t);
        if t.len() > 0 {
            assert(t.last().timeline_start <= s.last().timeline_start);
        }
        assert(t.push(s.last()) =~= s);
    }
}

/// Every clip of the sorted sequence fits when every input clip does.
proof fn lemma_sort_all_fit(s: Seq<ClipView>)
    requires
        all_fit(s),
    ensures
        all_fit(sort_by_start(s)),
{
    lemma_sort_by_start(s);
    assert forall|i: int| 0 <= i < sort_by_start(s).len() implies #[trigger] sort_by_start(s)[i].fits() by {
        let x = sort_by_start(s)[i];
        assert(sort_by_start(s).contains(x));
        let k = choose|k: int| 0 <= k < s.len() && s[k] == x;
        assert(s[k].fits());
    }
}

/// Facts kept by one split: clip ends fit, one clip and one id are added
/// exactly when the split takes effect, and the new clip's id is the counter.
pub proof fn lemma_split_step(s: Seq<ClipView>, n: u64, id: u64, at: u64)
    requires
        all_fit(s),
        splits(s, id, at) ==> n < u64::MAX,
    ensures
        all_fit(split_step(s, n, id, at).0),
        split_step(s, n, id, at).1 == (if splits(s, id, at) { n + 1 } else { n as int }),
        split_step(s, n, id, at).0.len() == s.len() + (split_step(s, n, id, at).1 - n),
        forall|x: u64| #[trigger] has_clip(split_step(s, n, id, at).0, x)
            ==> has_clip(s, x) || (splits(s, id, at) && x == n),
        distinct_clip_ids(s) && (forall|i: int| 0 <= i < s.len() ==> #[trigger] s[i].id < n)
            ==> distinct_clip_ids(split_step(s, n, id, at).0),
{
    if splits(s, id, at) {
        let i = choose|i: int| first_clip_index(s, id, i) && cuts(s[i], at);
        let c = s[i];
        let u = s.update(i, first_half(c, at));
        let v = u.push(second_half(c, at, n));
        assert(s[i].fits());
        assert forall|k: int| 0 <= k < v.len() implies #[trigger] v[k].fits() by {
            if k < s.len() && k != i { assert(s[k].fits()); }
        }
        lemma_sort_all_fit(v);
        lemma_sort_by_start(v);
        assert forall|x: u64| #[trigger] has_clip(v, x) implies has_clip(s, x) || x == n by {
            let k = choose|k: int| 0 <= k < v.len() && v[k].id == x;
            if k < s.len() { assert(s[k].id == x); }
        }
        if distinct_clip_ids(s) && (forall|k: int| 0 <= k < s.len() ==> #[trigger] s[k].id < n) {
            assert forall|p: int, q: int| 0 <= p < q < v.len() implies #[trigger] v[p].id != #[trigger] v[q].id by {
                if q == s.len() {
                    assert(s[p].id < n);
                }
            }
        }
    }
}

/// The number of clips that `x` falls strictly inside: the clips a split at
/// `x` would cut in two.
pub open spec fn crossing(s: Seq<ClipView>, x: u64) -> nat
    decreases s.len(),
{
    if s.len() == 0 {
        0
    } else {
        crossing(s.drop_last(), x) + if cuts(s.last(), x) { 1nat } else { 0nat }
    }
}

proof fn lemma_crossing_push(s: Seq<ClipView>, c: ClipView, x: u64)
    ensures
        crossing(s.push(c), x) == crossing(s, x) + if cuts(c, x) { 1nat } else { 0nat },
{
    assert(s.push(c).drop_last() =~= s);
}

proof fn lemma_crossing_insert(s: Seq<ClipView>, c: ClipView, x: u64)
    ensures
        crossing(insert_by_start(s, c), x) == crossing(s, x) + if cuts(c, x) { 1nat } else { 0nat },
    decreases s.len(),
{
    if s.len() == 0 {
        assert(seq![c] =~= Seq::<ClipView>::empty().push(c));
        lemma_crossing_push(Seq::<ClipView>::empty(), c, x);
    } else if s.last().timeline_start <= c.timeline_start {
        lemma_crossing_push(s, c, x);
    } else {
        let t = s.drop_last();
        lemma_crossing_insert(t, c, x);
        lemma_crossing_push(insert_by_start(t, c), s.last(), x);
    }
}

/// Sorting keeps the number of clips across a point.
proof fn lemma_crossing_sort(s: Seq<ClipView>, x: u64)
    ensures
        crossing(sort_by_start(s), x) == crossing(s, x),
    decreases s.len(),
{
    if s.len() > 0 {
        lemma_crossing_sort(s.drop_last(), x);
        lemma_crossing_insert(sort_by_start(s.drop_last()), s.last(), x);
    }
}

proof fn lemma_crossing_update(s: Seq<ClipView>, i: int, c: ClipView, x: u64)
    requires
        0 <= i < s.len(),
    ensures
        crossing(s.update(i, c), x) + (if cuts(s[i], x) { 1nat } else { 0nat })
            == crossing(s, x) + (if cuts(c, x) { 1nat } else { 0nat }),
    decreases s.len(),
{
    let u = s.update(i, c);
    if i == s.len() - 1 {
        assert(u.drop_last() =~= s.drop_last());
    } else {
        lemma_crossing_update(s.drop_last(), i, c, x);
        assert(u.drop_last() =~= s.drop_last().update(i, c));
    }
}

/// A split at `at` takes the clip it cuts off the clips across `at`, and
/// leaves the number of clips across any later point as it was.
proof fn lemma_split_step_crossing(s: Seq<ClipView>, n: u64, id: u64, at: u64, x: u64)
    requires
        at <= x,
    ensures
        crossing(split_step(s, n, id, at).0, x) + (if splits(s, id, at) && x == at { 1nat } else { 0nat })
            == crossing(s, x),
{
    if splits(s, id, at) {
        let i = choose|i: int| first_clip_index(s, id, i) && cuts(s[i], at);
        let c = s[i];
        let h1 = first_half(c, at);
        let h2 = second_half(c, at, n);
        let u = s.update(i, h1);
        let v = u.push(h2);
        assert(h1.end_pos() == at);
        assert(h2.timeline_start == at && h2.end_pos() == c.end_pos());
        lemma_crossing_update(s, i, h1, x);
        lemma_crossing_push(u, h2, x);
        lemma_crossing_sort(v, x);
    }
}

/// A run of splits at `at` uses one id for each clip it cuts in two, and
/// leaves the clips across a later point as they were.
proof fn lemma_split_each_crossing(s: Seq<ClipView>, n: u64, ids: Seq<u64>, at: u64, x: u64)
    requires
        all_fit(s),
        n + crossing(s, at) <= u64::MAX,
        at < x,
    ensures
        split_each(s, n, ids, at).1 - n + crossing(split_each(s, n, ids, at).0, at) == crossing(s, at),
        crossing(split_each(s, n, ids, at).0, x) == crossing(s, x),
    decreases ids.len(),
{
    if ids.len() > 0 {
        lemma_split_each_crossing(s, n, ids.drop_last(), at, x);
        lemma_split_each(s, n, ids.drop_last(), at);
        let p = split_each(s, n, ids.drop_last(), at);
        lemma_split_step_crossing(p.0, p.1, ids.last(), at, at);
        lemma_split_step_crossing(p.0, p.1, ids.last(), at, x);
        lemma_split_step(p.0, p.1, ids.last(), at);
    }
}

/// The clips and counter after splitting, in turn, the first clip with each
/// of the given ids at `at`.
pub open spec fn split_each(s: Seq<ClipView>, n: u64, ids: Seq<u64>, at: u64) -> (Seq<ClipView>, u64)
    decreases ids.len(),
{
    if ids.len() == 0 {
        (s, n)
    } else {
        let p = split_each(s, n, ids.drop_last(), at);
        split_step(p.0, p.1, ids.last(), at)
    }
}

/// Facts kept by a run of splits.
pub proof fn lemma_split_each(s: Seq<ClipView>, n: u64, ids: Seq<u64>, at: u64)
    requires
        all_fit(s),
        n + crossing(s, at) <= u64::MAX,
    ensures
        all_fit(split_each(s, n, ids, at).0),
        n <= split_each(s, n, ids, at).1 <= n + ids.len(),
        split_each(s, n, ids, at).1 - n + crossing(split_each(s, n, ids, at).0, at) == crossing(s, at),
        split_each(s, n, ids, at).0.len() == s.len() + (split_each(s, n, ids, at).1 - n),
        forall|x: u64| #[trigger] has_clip(split_each(s, n, ids, at).0, x)
            ==> has_clip(s, x) || (n <= x < split_each(s, n, ids, at).1),
        distinct_clip_ids(s) && (forall|i: int| 0 <= i < s.len() ==> #[trigger] s[i].id < n)
            ==> distinct_clip_ids(split_each(s, n, ids, at).0)
                && forall|i: int| 0 <= i < split_each(s, n, ids, at).0.len()
                    ==> #[trigger] split_each(s, n, ids, at).0[i].id < split_each(s, n, ids, at).1,
    decreases ids.len(),
{
    if ids.len() > 0 {
        lemma_split_each(s, n, ids.drop_last(), at);
        let p = split_each(s, n, ids.drop_last(), at);
        lemma_split_step_crossing(p.0, p.1, ids.last(), at, at);
        lemma_split_step(p.0, p.1, ids.last(), at);
        let r = split_each(s, n, ids, at);
        assert forall|x: u64| #[trigger] has_clip(r.0, x) implies has_clip(s, x) || (n <= x < r.1) by {
            assert(has_clip(p.0, x) || (splits(p.0, ids.last(), at) && x == p.1));
        }
        if distinct_clip_ids(s) && (forall|i: int| 0 <= i < s.len() ==> #[trigger] s[i].id < n) {
            assert forall|i: int| 0 <= i < r.0.len() implies #[trigger] r.0[i].id < r.1 by {
                assert(has_clip(r.0, r.0[i].id));
                if has_clip(p.0, r.0[i].id) {
                    let k = choose|k: int| 0 <= k < p.0.len() && p.0[k].id == r.0[i].id;
                    assert(p.0[k].id < p.1);
                }
            }
        }
    }
}

/// Whether the clip overlaps the range: starts before `b` and ends after `a`.
pub open spec fn overlaps(c: ClipView, a: u64, b: u64) -> bool {
    c.timeline_start < b && c.end_pos() > a
}

/// Whether the clip lies within `[a, b]`.
pub open spec fn inside(c: ClipView, a: u64, b: u64) -> bool {
    c.timeline_start >= a && c.end_pos() <= b
}

/// Ids of the clips that overlap the range, in order.
pub open spec fn overlapping_ids(s: Seq<ClipView>, a: u64, b: u64) -> Seq<u64> {
    s.filter(|c: ClipView| overlaps(c, a, b)).map_values(|c: ClipView| c.id)
}

/// A clip moved left by `gap` when it starts at or after `b`.
pub open spec fn close_gap(c: ClipView, b: u64, gap: u64) -> ClipView {
    if c.timeline_start >= b {
        ClipView { timeline_start: (c.timeline_start - gap) as u64, ..c }
    } else {
        c
    }
}

/// Removing `[a, b]` when it is non-empty and some clip overlaps it: split
/// the overlapping clips at `a`, then those overlapping after that at `b`,
/// drop the clips that lie within the range, move the later clips left by
/// the range's length and sort. Yields the clips, the counter, and whether
/// a clip was dropped.
pub open spec fn cut_result(s: Seq<ClipView>, n: u64, a: u64, b: u64) -> (Seq<ClipView>, u64, bool) {
    let p1 = split_each(s, n, overlapping_ids(s, a, b), a);
    let p2 = split_each(p1.0, p1.1, overlapping_ids(p1.0, a, b), b);
    let kept = p2.0.filter(|c: ClipView| !inside(c, a, b));
    (
        sort_by_start(kept.map_values(|c: ClipView| close_gap(c, b, (b - a) as u64))),
        p2.1,
        kept.len() < p2.0.len(),
    )
}

/// Inserts `c` into `out` at its stable sorted place.
fn insert_clip_sorted(out: &mut Vec<Clip>, c: Clip)
    ensures
        clip_views(final(out)@) == insert_by_start(clip_views(old(out)@), c@),
{
    let ghost s = clip_views(out@);
    let mut idx = out.len();
    while idx > 0 && out[idx - 1].timeline_start > c.timeline_start
        invariant
            idx <= out@.len(),
            s == clip_views(out@),
            forall|j: int| idx <= j < s.len() ==> s[j].timeline_start > c.timeline_start,
        decreases idx,
    {
        idx = idx - 1;
    }
    proof {
        lemma_insert_at(s, c@, idx as int);
    }
    out.insert(idx, c);
    assert(clip_views(out@) =~= s.insert(idx as int, c@));
}

/// The clips of `v`, stably sorted by timeline start.
fn sorted_clips(v: &Vec<Clip>) -> (r: Vec<Clip>)
    ensures
        clip_views(r@) == sort_by_start(clip_views(v@)),
{
    let mut out: Vec<Clip> = Vec::new();
    let n = v.len();
    let mut i: usize = 0;
    while i < n
        invariant
            n == v@.len(),
            i <= n,
            clip_views(out@) == sort_by_start(clip_views(v@).take(i as int)),
        decreases n - i,
    {
        let c = v[i].clone();
        proof {
            let t = clip_views(v@).take(i as int + 1);
            assert(t.drop_last() =~= clip_views(v@).take(i as int));
        }
        insert_clip_sorted(&mut out, c);
        i = i + 1;
    }
    assert(clip_views(v@).take(n as int) =~= clip_views(v@));
    out
}

/// Manages the ordered collection of clips and the playhead position.
/// Times are microseconds.
pub struct Timeline {
    clips: Vec<Clip>,
    text_overlays: Vec<TextOverlay>,
    next_id: u64,
    /// Current playhead position.
    playhead: u64,
}

impl Timeline {
    /// The clips, in their order on the timeline.
    pub closed spec fn clip_seq(self) -> Seq<ClipView> {
        clip_views(self.clips@)
    }

    /// The text overlays, in insertion order.
    pub closed spec fn overlay_seq(self) -> Seq<TextOverlayView> {
        overlay_views(self.text_overlays@)
    }

    /// The id the next added clip or overlay receives.
    pub closed spec fn counter(self) -> u64 {
        self.next_id
    }

    /// The playhead position.
    pub closed spec fn head(self) -> u64 {
        self.playhead
    }

    /// Well-formed: clip ends fit the time type, ids are distinct across
    /// clips and overlays, and every id is below the counter.
    pub open spec fn wf(self) -> bool {
        wf_parts(self.clip_seq(), self.overlay_seq(), self.counter())
    }

    /// The clip sequence, the overlay sequence and the playhead are those of `other`.
    pub open spec fn same_overlays_and_playhead(self, other: Timeline) -> bool {
        self.overlay_seq() == other.overlay_seq() && self.head() == other.head()
    }

    /// An empty timeline.
    pub fn new() -> (t: Self)
        ensures
            t.clip_seq() == Seq::<ClipView>::empty(),
            t.overlay_seq() == Seq::<TextOverlayView>::empty(),
            t.counter() == 0,
            t.head() == 0,
            t.wf(),
    {
        let t = Timeline { clips: Vec::new(), text_overlays: Vec::new(), next_id: 0, playhead: 0 };
        assert(t.clip_seq() =~= Seq::<ClipView>::empty());
        assert(t.overlay_seq() =~= Seq::<TextOverlayView>::empty());
        t
    }

    /// A timeline made of the given parts, as they are.
    pub fn from_parts(clips: Vec<Clip>, text_overlays: Vec<TextOverlay>, next_id: u64, playhead: u64) -> (t: Self)
        ensures
            t.clip_seq() == clip_views(clips@),
            t.overlay_seq() == overlay_views(text_overlays@),
            t.counter() == next_id,
            t.head() == playhead,
    {
        Timeline { clips, text_overlays, next_id, playhead }
    }

    /// The id the next added clip or overlay receives.
    pub fn next_id(&self) -> (n: u64)
        ensures
            n == self.counter(),
    {
        self.next_id
    }

    /// Total duration of the timeline (end of the last clip).
    pub fn total_duration(&self) -> (d: u64)
        requires
            all_fit(self.clip_seq()),
        ensures
            d == total_of(self.clip_seq()),
    {
        let ghost s = self.clip_seq();
        let n = self.clips.len();
        let mut acc: u64 = 0;
        let mut i: usize = 0;
        while i < n
            invariant
                n == s.len(),
                s == clip_views(self.clips@),
                all_fit(s),
                i <= n,
                acc == total_of(s.take(i as int)),
            decreases n - i,
        {
            assert(s[i as int].fits());
            let e = self.clips[i].timeline_end();
            proof {
                assert(s.take(i as int + 1).drop_last() =~= s.take(i as int));
            }
            if e > acc {
                acc = e;
            }
            i = i + 1;
        }
        assert(s.take(n as int) =~= s);
        acc
    }

    /// Add a clip at the end of the timeline and return its assigned id.
    pub fn add_clip(&mut self, clip: Clip) -> (id: u64)
        requires
            old(self).counter() < u64::MAX,
            all_fit(old(self).clip_seq()),
            total_of(old(self).clip_seq()) + clip@.span() <= u64::MAX,
        ensures
            id == old(self).counter(),
            final(self).counter() == old(self).counter() + 1,
            final(self).clip_seq() == old(self).clip_seq().push(
                placed(clip@, id, total_of(old(self).clip_seq()) as u64),
            ),
            final(self).same_overlays_and_playhead(*old(self)),
            old(self).wf() ==> final(self).wf(),
            sorted_by_start(old(self).clip_seq()) ==> sorted_by_start(final(self).clip_seq()),
            total_of(final(self).clip_seq()) == total_of(old(self).clip_seq()) + clip@.span(),
    {
        let id = self.next_id;
        self.next_id = self.next_id + 1;
        let start = self.total_duration();
        let ghost cv = clip@;
        let mut c = clip;
        c.id = id;
        c.timeline_start = start;
        self.clips.push(c);
        assert(self.clip_seq() =~= old(self).clip_seq().push(placed(cv, id, start)));
        proof {
            let cs0 = old(self).clip_seq();
            let cs = self.clip_seq();
            lemma_total_facts(cs0);
            assert(cs.drop_last() =~= cs0);
            if sorted_by_start(cs0) {
                assert forall|i: int, j: int| 0 <= i <= j < cs.len() implies cs[i].timeline_start <= cs[j].timeline_start by {
                    if j == cs0.len() && i < j {
                        assert(cs0[i].end_pos() <= total_of(cs0));
                    }
                }
            }
        }
        proof {
            if old(self).wf() {
                let cs0 = old(self).clip_seq();
                let cs = self.clip_seq();
                let os = self.overlay_seq();
                assert forall|i: int| 0 <= i < cs.len() implies #[trigger] cs[i].fits() by {
                    if i < cs0.len() { assert(cs0[i].fits()); }
                }
                assert forall|x: u64| #[trigger] has_clip(cs, x) implies x < self.counter() && !has_overlay(os, x) by {
                    let k = choose|k: int| 0 <= k < cs.len() && cs[k].id == x;
                    if k < cs0.len() {
                        assert(cs0[k].id < old(self).counter());
                        if has_overlay(os, x) {
                            let m = choose|m: int| 0 <= m < os.len() && os[m].id == x;
                            assert(cs0[k].id != os[m].id);
                        }
                    } else {
                        if has_overlay(os, x) {
                            let m = choose|m: int| 0 <= m < os.len() && os[m].id == x;
                            assert(os[m].id < old(self).counter());
                        }
                    }
                }
                assert forall|x: u64| #[trigger] has_overlay(os, x) implies x < self.counter() by {
                    let m = choose|m: int| 0 <= m < os.len() && os[m].id == x;
                    assert(os[m].id < old(self).counter());
                }
                assert forall|i: int, j: int| 0 <= i < j < cs.len() implies #[trigger] cs[i].id != #[trigger] cs[j].id by {
                    if j == cs0.len() { assert(cs0[i].id < old(self).counter()); }
                }
                lemma_wf_parts_by_ids(cs, os, self.counter());
            }
        }
        id
    }

    /// Remove the clips with the given id. Returns `true` if one was found.
    pub fn remove_clip(&mut self, id: u64) -> (found: bool)
        ensures
            final(self).clip_seq() == without_clip(old(self).clip_seq(), id),
            found == has_clip(old(self).clip_seq(), id),
            final(self).counter() == old(self).counter(),
            final(self).same_overlays_and_playhead(*old(self)),
            old(self).wf() ==> final(self).wf(),
            sorted_by_start(old(self).clip_seq()) ==> sorted_by_start(final(self).clip_seq()),
    {
        let ghost s = self.clip_seq();
        let ghost p = |c: ClipView| c.id != id;
        let mut out: Vec<Clip> = Vec::new();
        let mut found = false;
        let n = self.clips.len();
        let mut i: usize = 0;
        while i < n
            invariant
                n == s.len(),
                s == clip_views(self.clips@),
                i <= n,
                p == (|c: ClipView| c.id != id),
                clip_views(out@) == s.take(i as int).filter(p),
                found == exists|j: int| 0 <= j < i && s[j].id == id,
            decreases n - i,
        {
            proof { lemma_filter_take_step(s, p, i as int); }
            let ghost prev = clip_views(out@);
            if self.clips[i].id != id {
                let c = self.clips[i].clone();
                out.push(c);
                assert(p(s[i as int]));
                assert(clip_views(out@) =~= prev.push(s[i as int]));
            } else {
                assert(!p(s[i as int]));
                found = true;
            }
            i = i + 1;
        }
        assert(s.take(n as int) =~= s);
        self.clips = out;
        proof {
            if sorted_by_start(s) {
                lemma_filter_sorted(s, p);
            }
        }
        proof {
            if old(self).wf() {
                lemma_clip_filter(s, p);
                let cs = self.clip_seq();
                let os = self.overlay_seq();
                assert forall|x: u64| #[trigger] has_clip(cs, x) implies x < self.counter() && !has_overlay(os, x) by {
                    let k = choose|k: int| 0 <= k < s.len() && s[k].id == x;
                    assert(s[k].id < self.counter());
                    if has_overlay(os, x) {
                        let m = choose|m: int| 0 <= m < os.len() && os[m].id == x;
                        assert(s[k].id != os[m].id);
                    }
                }
                assert forall|x: u64| #[trigger] has_overlay(os, x) implies x < self.counter() by {
                    let m = choose|m: int| 0 <= m < os.len() && os[m].id == x;
                    assert(os[m].id < self.counter());
                }
                lemma_wf_parts_by_ids(cs, os, self.counter());
            }
        }
        found
    }

    /// The clips, ordered as on the timeline.
    pub fn clips(&self) -> (r: &[Clip])
        ensures
            clip_views(r@) == self.clip_seq(),
    {
        self.clips.as_slice()
    }

    /// Index of the first clip with the given id.
    fn clip_index(&self, id: u64) -> (r: Option<usize>)
        ensures
            match r {
                Some(i) => first_clip_index(self.clip_seq(), id, i as int),
                None => !has_clip(self.clip_seq(), id),
            },
    {
        let ghost s = self.clip_seq();
        let n = self.clips.len();
        let mut i: usize = 0;
        while i < n
            invariant
                n == s.len(),
                s == clip_views(self.clips@),
                i <= n,
                forall|j: int| 0 <= j < i ==> s[j].id != id,
            decreases n - i,
        {
            if self.clips[i].id == id {
                return Some(i);
            }
            i = i + 1;
        }
        None
    }

    /// A mutable reference to the first clip with the given id.
    pub fn clip_mut(&mut self, id: u64) -> (r: Option<&mut Clip>)
        ensures
            match r {
                None => !has_clip(old(self).clip_seq(), id) && *final(self) == *old(self),
                Some(c) => exists|i: int| {
                    &&& first_clip_index(old(self).clip_seq(), id, i)
                    &&& c@ == old(self).clip_seq()[i]
                    &&& final(self).clip_seq() == old(self).clip_seq().update(i, final(c)@)
                },
            },
            final(self).counter() == old(self).counter(),
            final(self).same_overlays_and_playhead(*old(self)),
    {
        match self.clip_index(id) {
            None => None,
            Some(i) => {
                let r = &mut self.clips[i];
                Some(r)
            },
        }
    }

    /// Is the timeline empty?
    pub fn is_empty(&self) -> (b: bool)
        ensures
            b == (self.clip_seq().len() == 0),
    {
        self.clips.len() == 0
    }

    /// Sort clips by their timeline start, keeping the order of clips that
    /// start together.
    pub fn sort_clips(&mut self)
        ensures
            final(self).clip_seq() == sort_by_start(old(self).clip_seq()),
            final(self).counter() == old(self).counter(),
            final(self).same_overlays_and_playhead(*old(self)),
            old(self).wf() ==> final(self).wf(),
            all_fit(old(self).clip_seq()) ==> all_fit(final(self).clip_seq()),
            sorted_by_start(final(self).clip_seq()),
    {
        let sorted = sorted_clips(&self.clips);
        self.clips = sorted;
        proof {
            lemma_sort_by_start(old(self).clip_seq());
            if all_fit(old(self).clip_seq()) {
                lemma_sort_all_fit(old(self).clip_seq());
            }
        }
        proof {
            if old(self).wf() {
                let s = old(self).clip_seq();
                lemma_sort_by_start(s);
                lemma_sort_all_fit(s);
                let cs = self.clip_seq();
                let os = self.overlay_seq();
                assert forall|x: u64| #[trigger] has_clip(cs, x) implies x < self.counter() && !has_overlay(os, x) by {
                    let k = choose|k: int| 0 <= k < s.len() && s[k].id == x;
                    assert(s[k].id < self.counter());
                    if has_overlay(os, x) {
                        let m = choose|m: int| 0 <= m < os.len() && os[m].id == x;
                        assert(s[k].id != os[m].id);
                    }
                }
                assert forall|x: u64| #[trigger] has_overlay(os, x) implies x < self.counter() by {
                    let m = choose|m: int| 0 <= m < os.len() && os[m].id == x;
                    assert(os[m].id < self.counter());
                }
                lemma_wf_parts_by_ids(cs, os, self.counter());
            }
        }
    }

    /// Split a clip at the given timeline position into two clips.
    ///
    /// Returns the id of the newly created second clip, or `None` if the
    /// clip does not exist or the split position is not strictly inside it.
    pub fn split_clip(&mut self, clip_id: u64, split_at: u64) -> (r: Option<u64>)
        requires
            all_fit(old(self).clip_seq()),
            splits(old(self).clip_seq(), clip_id, split_at) ==> old(self).counter() < u64::MAX,
        ensures
            r is None ==> *final(self) == *old(self),
            (final(self).clip_seq(), final(self).counter())
                == split_step(old(self).clip_seq(), old(self).counter(), clip_id, split_at),
            r == (if splits(old(self).clip_seq(), clip_id, split_at) {
                Some(old(self).counter())
            } else {
                None::<u64>
            }),
            final(self).same_overlays_and_playhead(*old(self)),
            old(self).wf() ==> final(self).wf(),
            sorted_by_start(old(self).clip_seq()) || splits(old(self).clip_seq(), clip_id, split_at)
                ==> sorted_by_start(final(self).clip_seq()),
            total_of(final(self).clip_seq()) == total_of(old(self).clip_seq()),
    {
        let ghost s = self.clip_seq();
        let idx = match self.clip_index(clip_id) {
            None => { return None; },
            Some(i) => i,
        };
        let tl_start = self.clips[idx].timeline_start;
        assert(s[idx as int].fits());
        let tl_end = self.clips[idx].timeline_end();
        let trim_start = self.clips[idx].trim_start;
        proof {
            assert forall|i: int| first_clip_index(s, clip_id, i) implies i == idx by {
                if i < idx { } else if i > idx { }
            }
        }
        if split_at <= tl_start || split_at >= tl_end {
            return None;
        }
        let split_source = trim_start + (split_at - tl_start);
        let mut second = self.clips[idx].clone();
        second.trim_start = split_source;
        second.timeline_start = split_at;
        let mut label_chars = str_chars(second.label.as_str());
        push_str(&mut label_chars, " (2)");
        second.label = string_from_chars(&label_chars);
        let second_id = self.next_id;
        self.next_id = self.next_id + 1;
        second.id = second_id;
        let mut first = self.clips[idx].clone();
        first.trim_end = split_source;
        self.clips.set(idx, first);
        self.clips.push(second);
        assert(self.clip_seq() =~= s.update(idx as int, first_half(s[idx as int], split_at)).push(
            second_half(s[idx as int], split_at, second_id)));
        self.sort_clips();
        proof {
            lemma_split_keeps_total(s, old(self).counter(), clip_id, split_at);
        }
        Some(second_id)
    }

    /// Ripple-shift all clips (and text overlays) that start at or after
    /// `threshold` by `delta`, excluding the clip `exclude_id`; positions are
    /// floored at zero and the clips are sorted again.
    pub fn ripple_shift_after(&mut self, threshold: u64, delta: i64, exclude_id: u64)
        requires
            ripple_fits(old(self).clip_seq(), threshold, delta, exclude_id),
            ripple_overlays_fit(old(self).overlay_seq(), threshold, delta),
        ensures
            final(self).clip_seq() == sort_by_start(
                old(self).clip_seq().map_values(|c: ClipView| ripple_clip(c, threshold, delta, exclude_id)),
            ),
            final(self).overlay_seq()
                == old(self).overlay_seq().map_values(|o: TextOverlayView| ripple_overlay(o, threshold, delta)),
            final(self).counter() == old(self).counter(),
            final(self).head() == old(self).head(),
            old(self).wf() ==> final(self).wf(),
            sorted_by_start(final(self).clip_seq()),
    {
        let ghost s = self.clip_seq();
        let ghost f = |c: ClipView| ripple_clip(c, threshold, delta, exclude_id);
        let mut out: Vec<Clip> = Vec::new();
        let n = self.clips.len();
        let mut i: usize = 0;
        while i < n
            invariant
                n == s.len(),
                s == clip_views(self.clips@),
                i <= n,
                f == (|c: ClipView| ripple_clip(c, threshold, delta, exclude_id)),
                ripple_fits(s, threshold, delta, exclude_id),
                clip_views(out@) == s.take(i as int).map_values(f),
            decreases n - i,
        {
            let mut c = self.clips[i].clone();
            if c.id != exclude_id && c.timeline_start >= threshold {
                let v: i128 = c.timeline_start as i128 + delta as i128;
                assert(shifted(s[i as int].timeline_start, delta) + s[i as int].span() <= u64::MAX);
                if v < 0 {
                    c.timeline_start = 0;
                } else {
                    c.timeline_start = v as u64;
                }
            }
            let ghost prev = clip_views(out@);
            out.push(c);
            assert(clip_views(out@) =~= prev.push(f(s[i as int])));
            assert(s.take(i as int + 1).map_values(f) =~= s.take(i as int).map_values(f).push(f(s[i as int])));
            i = i + 1;
        }
        assert(s.take(n as int) =~= s);
        self.clips = out;

        let ghost os = self.overlay_seq();
        let ghost g = |o: TextOverlayView| ripple_overlay(o, threshold, delta);
        let mut outo: Vec<TextOverlay> = Vec::new();
        let m = self.text_overlays.len();
        let mut j: usize = 0;
        while j < m
            invariant
                m == os.len(),
                os == overlay_views(self.text_overlays@),
                j <= m,
                g == (|o: TextOverlayView| ripple_overlay(o, threshold, delta)),
                ripple_overlays_fit(os, threshold, delta),
                overlay_views(outo@) == os.take(j as int).map_values(g),
            decreases m - j,
        {
            let mut o = self.text_overlays[j].clone();
            if o.start >= threshold {
                assert(os[j as int].start >= threshold);
                let vs: i128 = o.start as i128 + delta as i128;
                let ve: i128 = o.end as i128 + delta as i128;
                o.start = if vs < 0 { 0 } else { vs as u64 };
                o.end = if ve < 0 { 0 } else { ve as u64 };
            }
            let ghost prev = overlay_views(outo@);
            outo.push(o);
            assert(overlay_views(outo@) =~= prev.push(g(os[j as int])));
            assert(os.take(j as int + 1).map_values(g) =~= os.take(j as int).map_values(g).push(g(os[j as int])));
            j = j + 1;
        }
        assert(os.take(m as int) =~= os);
        self.text_overlays = outo;
        self.sort_clips();
    }

    /// Add a text overlay and return its assigned id.
    pub fn add_text_overlay(&mut self, overlay: TextOverlay) -> (id: u64)
        requires
            old(self).counter() < u64::MAX,
        ensures
            id == old(self).counter(),
            final(self).counter() == old(self).counter() + 1,
            final(self).overlay_seq() == old(self).overlay_seq().push(with_overlay_id(overlay@, id)),
            final(self).clip_seq() == old(self).clip_seq(),
            final(self).head() == old(self).head(),
            old(self).wf() ==> final(self).wf(),
    {
        let id = self.next_id;
        self.next_id = self.next_id + 1;
        let ghost ov = overlay@;
        let mut o = overlay;
        o.id = id;
        self.text_overlays.push(o);
        assert(self.overlay_seq() =~= old(self).overlay_seq().push(with_overlay_id(ov, id)));
        id
    }

    /// Remove the text overlays with the given id. Returns `true` if one was found.
    pub fn remove_text_overlay(&mut self, id: u64) -> (found: bool)
        ensures
            final(self).overlay_seq() == without_overlay(old(self).overlay_seq(), id),
            found == has_overlay(old(self).overlay_seq(), id),
            final(self).clip_seq() == old(self).clip_seq(),
            final(self).counter() == old(self).counter(),
            final(self).head() == old(self).head(),
            old(self).wf() ==> final(self).wf(),
    {
        let ghost s = self.overlay_seq();
        let ghost p = |o: TextOverlayView| o.id != id;
        let mut out: Vec<TextOverlay> = Vec::new();
        let mut found = false;
        let n = self.text_overlays.len();
        let mut i: usize = 0;
        while i < n
            invariant
                n == s.len(),
                s == overlay_views(self.text_overlays@),
                i <= n,
                p == (|o: TextOverlayView| o.id != id),
                overlay_views(out@) == s.take(i as int).filter(p),
                found == exists|j: int| 0 <= j < i && s[j].id == id,
            decreases n - i,
        {
            proof { lemma_filter_take_step(s, p, i as int); }
            let ghost prev = overlay_views(out@);
            if self.text_overlays[i].id != id {
                let o = self.text_overlays[i].clone();
                out.push(o);
                assert(p(s[i as int]));
                assert(overlay_views(out@) =~= prev.push(s[i as int]));
            } else {
                assert(!p(s[i as int]));
                found = true;
            }
            i = i + 1;
        }
        assert(s.take(n as int) =~= s);
        self.text_overlays = out;
        proof {
            if old(self).wf() {
                lemma_overlay_filter(s, p);
                let cs = self.clip_seq();
                let os = self.overlay_seq();
                assert forall|x: u64| #[trigger] has_clip(cs, x) implies x < self.counter() && !has_overlay(os, x) by {
                    let k = choose|k: int| 0 <= k < cs.len() && cs[k].id == x;
                    assert(cs[k].id < self.counter());
                    if has_overlay(os, x) {
                        let m = choose|m: int| 0 <= m < s.len() && s[m].id == x;
                        assert(cs[k].id != s[m].id);
                    }
                }
                assert forall|x: u64| #[trigger] has_overlay(os, x) implies x < self.counter() by {
                    let m = choose|m: int| 0 <= m < s.len() && s[m].id == x;
                    assert(s[m].id < self.counter());
                }
                lemma_wf_parts_by_ids(cs, os, self.counter());
            }
        }
        found
    }

    /// The text overlays, in insertion order.
    pub fn text_overlays(&self) -> (r: &[TextOverlay])
        ensures
            overlay_views(r@) == self.overlay_seq(),
    {
        self.text_overlays.as_slice()
    }

    /// A mutable reference to the first text overlay with the given id.
    pub fn text_overlay_mut(&mut self, id: u64) -> (r: Option<&mut TextOverlay>)
        ensures
            match r {
                None => !has_overlay(old(self).overlay_seq(), id) && *final(self) == *old(self),
                Some(o) => exists|i: int| {
                    &&& first_overlay_index(old(self).overlay_seq(), id, i)
                    &&& o@ == old(self).overlay_seq()[i]
                    &&& final(self).overlay_seq() == old(self).overlay_seq().update(i, final(o)@)
                },
            },
            final(self).clip_seq() == old(self).clip_seq(),
            final(self).counter() == old(self).counter(),
            final(self).head() == old(self).head(),
    {
        match self.overlay_index(id) {
            None => None,
            Some(i) => {
                let r = &mut self.text_overlays[i];
                Some(r)
            },
        }
    }

    /// Index of the first overlay with the given id.
    fn overlay_index(&self, id: u64) -> (r: Option<usize>)
        ensures
            match r {
                Some(i) => first_overlay_index(self.overlay_seq(), id, i as int),
                None => !has_overlay(self.overlay_seq(), id),
            },
    {
        let ghost s = self.overlay_seq();
        let n = self.text_overlays.len();
        let mut i: usize = 0;
        while i < n
            invariant
                n == s.len(),
                s == overlay_views(self.text_overlays@),
                i <= n,
                forall|j: int| 0 <= j < i ==> s[j].id != id,
            decreases n - i,
        {
            if self.text_overlays[i].id == id {
                return Some(i);
            }
            i = i + 1;
        }
        None
    }

    /// All text overlays visible at the given timeline position, in order.
    pub fn text_overlays_at(&self, t: u64) -> (r: Vec<&TextOverlay>)
        ensures
            r@.len() == self.overlay_seq().filter(|o: TextOverlayView| o.shown_at(t)).len(),
            forall|k: int| 0 <= k < r@.len()
                ==> (#[trigger] r@[k])@ == self.overlay_seq().filter(|o: TextOverlayView| o.shown_at(t))[k],
    {
        let ghost s = self.overlay_seq();
        let ghost p = |o: TextOverlayView| o.shown_at(t);
        let mut out: Vec<&TextOverlay> = Vec::new();
        let n = self.text_overlays.len();
        let mut i: usize = 0;
        while i < n
            invariant
                n == s.len(),
                s == overlay_views(self.text_overlays@),
                i <= n,
                p == (|o: TextOverlayView| o.shown_at(t)),
                out@.len() == s.take(i as int).filter(p).len(),
                forall|k: int| 0 <= k < out@.len() ==> (#[trigger] out@[k])@ == s.take(i as int).filter(p)[k],
            decreases n - i,
        {
            proof { lemma_filter_take_step(s, p, i as int); }
            let o = &self.text_overlays[i];
            if o.visible_at(t) {
                out.push(o);
                assert(p(s[i as int]));
            } else {
                assert(!p(s[i as int]));
            }
            i = i + 1;
        }
        assert(s.take(n as int) =~= s);
        out
    }

    /// Ids of the clips that overlap `[a, b]`, in order.
    fn overlapping_clip_ids(&self, a: u64, b: u64) -> (r: Vec<u64>)
        requires
            all_fit(self.clip_seq()),
        ensures
            r@ == overlapping_ids(self.clip_seq(), a, b),
    {
        let ghost s = self.clip_seq();
        let ghost p = |c: ClipView| overlaps(c, a, b);
        let ghost f = |c: ClipView| c.id;
        let mut out: Vec<u64> = Vec::new();
        let n = self.clips.len();
        let mut i: usize = 0;
        while i < n
            invariant
                n == s.len(),
                s == clip_views(self.clips@),
                all_fit(s),
                i <= n,
                p == (|c: ClipView| overlaps(c, a, b)),
                f == (|c: ClipView| c.id),
                out@ == s.take(i as int).filter(p).map_values(f),
            decreases n - i,
        {
            proof { lemma_filter_take_step(s, p, i as int); }
            assert(s[i as int].fits());
            let ghost prev = out@;
            if self.clips[i].timeline_start < b && self.clips[i].timeline_end() > a {
                out.push(self.clips[i].id);
                assert(p(s[i as int]));
                assert(out@ =~= s.take(i as int + 1).filter(p).map_values(f));
            } else {
                assert(!p(s[i as int]));
            }
            i = i + 1;
        }
        assert(s.take(n as int) =~= s);
        out
    }

    /// Split, in turn, the first clip with each of the given ids at `at`.
    fn split_all(&mut self, ids: &Vec<u64>, at: u64)
        requires
            all_fit(old(self).clip_seq()),
            old(self).counter() + crossing(old(self).clip_seq(), at) <= u64::MAX,
        ensures
            (final(self).clip_seq(), final(self).counter())
                == split_each(old(self).clip_seq(), old(self).counter(), ids@, at),
            final(self).same_overlays_and_playhead(*old(self)),
    {
        let ghost s = self.clip_seq();
        let ghost n0 = self.counter();
        let m = ids.len();
        let mut k: usize = 0;
        while k < m
            invariant
                m == ids@.len(),
                k <= m,
                n0 + crossing(s, at) <= u64::MAX,
                all_fit(s),
                (self.clip_seq(), self.counter()) == split_each(s, n0, ids@.take(k as int), at),
                all_fit(self.clip_seq()),
                n0 <= self.counter(),
                self.counter() - n0 + crossing(self.clip_seq(), at) == crossing(s, at),
                self.same_overlays_and_playhead(*old(self)),
            decreases m - k,
        {
            proof {
                assert(ids@.take(k as int + 1).drop_last() =~= ids@.take(k as int));
                lemma_split_step_crossing(self.clip_seq(), self.counter(), ids@[k as int], at, at);
                lemma_split_step(self.clip_seq(), self.counter(), ids@[k as int], at);
            }
            self.split_clip(ids[k], at);
            k = k + 1;
        }
        assert(ids@.take(m as int) =~= ids@);
    }

    /// Remove the portion of the timeline between `cut_start` and `cut_end`.
    ///
    /// Clips fully inside the range are deleted. Clips partially overlapping
    /// are trimmed (split at the boundary, then the inner part removed).
    /// Clips after the cut are shifted left to close the gap.
    /// Returns `true` if any clip was removed.
    pub fn cut_range(&mut self, cut_start: u64, cut_end: u64) -> (removed: bool)
        requires
            all_fit(old(self).clip_seq()),
            cut_start < cut_end ==> old(self).counter() + crossing(old(self).clip_seq(), cut_start)
                + crossing(old(self).clip_seq(), cut_end) <= u64::MAX,
        ensures
            cut_end <= cut_start || overlapping_ids(old(self).clip_seq(), cut_start, cut_end).len() == 0
                ==> *final(self) == *old(self) && !removed,
            (final(self).clip_seq(), final(self).counter(), removed) == (
                if cut_end <= cut_start || overlapping_ids(old(self).clip_seq(), cut_start, cut_end).len() == 0 {
                    (old(self).clip_seq(), old(self).counter(), false)
                } else {
                    cut_result(old(self).clip_seq(), old(self).counter(), cut_start, cut_end)
                }
            ),
            final(self).same_overlays_and_playhead(*old(self)),
            old(self).wf() ==> final(self).wf(),
            all_fit(final(self).clip_seq()),
            sorted_by_start(old(self).clip_seq()) ==> sorted_by_start(final(self).clip_seq()),
    {
        if cut_end <= cut_start {
            return false;
        }
        let gap = cut_end - cut_start;
        let ghost s0 = self.clip_seq();
        let ghost n0 = self.counter();
        let ids1 = self.overlapping_clip_ids(cut_start, cut_end);
        if ids1.len() == 0 {
            return false;
        }
        proof {
            let p = |c: ClipView| overlaps(c, cut_start, cut_end);
            s0.lemma_filter_len(p);
            lemma_split_each(s0, n0, ids1@, cut_start);
            lemma_split_each_crossing(s0, n0, ids1@, cut_start, cut_end);
        }
        self.split_all(&ids1, cut_start);
        let ghost s1 = self.clip_seq();
        let ghost n1 = self.counter();
        let ids2 = self.overlapping_clip_ids(cut_start, cut_end);
        proof {
            let p = |c: ClipView| overlaps(c, cut_start, cut_end);
            s1.lemma_filter_len(p);
            lemma_split_each(s1, n1, ids2@, cut_end);
        }
        self.split_all(&ids2, cut_end);
        let ghost s2 = self.clip_seq();

        // Keep the clips that do not lie within the range.
        let ghost keep = |c: ClipView| !inside(c, cut_start, cut_end);
        let before = self.clips.len();
        let mut kept: Vec<Clip> = Vec::new();
        let mut i: usize = 0;
        while i < before
            invariant
                before == s2.len(),
                s2 == clip_views(self.clips@),
                all_fit(s2),
                i <= before,
                keep == (|c: ClipView| !inside(c, cut_start, cut_end)),
                clip_views(kept@) == s2.take(i as int).filter(keep),
            decreases before - i,
        {
            proof { lemma_filter_take_step(s2, keep, i as int); }
            assert(s2[i as int].fits());
            let ghost prev = clip_views(kept@);
            let inside_range = self.clips[i].timeline_start >= cut_start && self.clips[i].timeline_end() <= cut_end;
            if !inside_range {
                let c = self.clips[i].clone();
                kept.push(c);
                assert(keep(s2[i as int]));
                assert(clip_views(kept@) =~= prev.push(s2[i as int]));
            } else {
                assert(!keep(s2[i as int]));
            }
            i = i + 1;
        }
        assert(s2.take(before as int) =~= s2);
        let ghost s3 = clip_views(kept@);
        let removed = kept.len() < before;

        // Close the gap left by the range.
        let ghost g = |c: ClipView| close_gap(c, cut_end, gap);
        let m = kept.len();
        let mut moved: Vec<Clip> = Vec::new();
        let mut j: usize = 0;
        while j < m
            invariant
                m == s3.len(),
                s3 == clip_views(kept@),
                j <= m,
                gap == cut_end - cut_start,
                g == (|c: ClipView| close_gap(c, cut_end, gap)),
                clip_views(moved@) == s3.take(j as int).map_values(g),
            decreases m - j,
        {
            let mut c = kept[j].clone();
            if c.timeline_start >= cut_end {
                c.timeline_start = c.timeline_start - gap;
            }
            let ghost prev = clip_views(moved@);
            moved.push(c);
            assert(clip_views(moved@) =~= prev.push(g(s3[j as int])));
            assert(s3.take(j as int + 1).map_values(g) =~= s3.take(j as int).map_values(g).push(g(s3[j as int])));
            j = j + 1;
        }
        assert(s3.take(m as int) =~= s3);
        self.clips = moved;
        proof {
            lemma_clip_filter(s2, keep);
            let s4 = self.clip_seq();
            assert forall|i: int| 0 <= i < s4.len() implies #[trigger] s4[i].fits() by {
                assert(s3.contains(s3[i]));
                assert(s3[i].fits());
            }
            if old(self).wf() {
                let os = self.overlay_seq();
                assert forall|i: int, j: int| 0 <= i < j < s4.len() implies #[trigger] s4[i].id != #[trigger] s4[j].id by {
                    assert(s3[i].id != s3[j].id);
                }
                assert forall|x: u64| #[trigger] has_clip(s4, x) implies x < self.counter() && !has_overlay(os, x) by {
                    let k = choose|k: int| 0 <= k < s4.len() && s4[k].id == x;
                    assert(s3[k].id == x);
                    assert(has_clip(s3, x));
                    assert(has_clip(s2, x));
                    assert(has_clip(s1, x) || (n1 <= x < self.counter()));
                    if has_clip(s1, x) {
                        assert(has_clip(s0, x) || (n0 <= x < n1));
                        if has_clip(s0, x) {
                            let k0 = choose|k0: int| 0 <= k0 < s0.len() && s0[k0].id == x;
                            assert(s0[k0].id < n0);
                            if has_overlay(os, x) {
                                let m = choose|m: int| 0 <= m < os.len() && os[m].id == x;
                                assert(s0[k0].id != os[m].id);
                            }
                        }
                    }
                    if has_overlay(os, x) {
                        let m = choose|m: int| 0 <= m < os.len() && os[m].id == x;
                        assert(os[m].id < n0);
                    }
                }
                assert forall|x: u64| #[trigger] has_overlay(os, x) implies x < self.counter() by {
                    let m = choose|m: int| 0 <= m < os.len() && os[m].id == x;
                    assert(os[m].id < n0);
                }
                lemma_wf_parts_by_ids(s4, os, self.counter());
            }
        }
        self.sort_clips();
        removed
    }

    /// The playhead position.
    pub fn playhead(&self) -> (p: u64)
        ensures
            p == self.head(),
    {
        self.playhead
    }

    /// Move the playhead, clamped to [0, total_duration].
    pub fn set_playhead(&mut self, pos: i64)
        requires
            all_fit(old(self).clip_seq()),
        ensures
            final(self).head() == clamp_to(pos as int, total_of(old(self).clip_seq())),
            final(self).clip_seq() == old(self).clip_seq(),
            final(self).overlay_seq() == old(self).overlay_seq(),
            final(self).counter() == old(self).counter(),
            old(self).wf() ==> final(self).wf(),
    {
        if pos < 0 {
            self.place_playhead(0);
        } else {
            self.place_playhead(pos as u64);
        }
    }

    /// Move the playhead to a time that cannot be negative, clamped to the
    /// end of the timeline.
    pub(crate) fn place_playhead(&mut self, pos: u64)
        requires
            all_fit(old(self).clip_seq()),
        ensures
            final(self).head() == clamp_to(pos as int, total_of(old(self).clip_seq())),
            final(self).clip_seq() == old(self).clip_seq(),
            final(self).overlay_seq() == old(self).overlay_seq(),
            final(self).counter() == old(self).counter(),
            old(self).wf() ==> final(self).wf(),
    {
        let total = self.total_duration();
        if pos <= total {
            self.playhead = pos;
        } else {
            self.playhead = total;
        }
    }
}

/// A filter that keeps every element changes nothing.
proof fn lemma_filter_all<A>(s: Seq<A>, p: spec_fn(A) -> bool)
    requires
        forall|i: int| 0 <= i < s.len() ==> #[trigger] p(s[i]),
    ensures
        s.filter(p) == s,
    decreases s.len(),
{
    reveal_with_fuel(Seq::filter, 1);
    if s.len() > 0 {
        lemma_filter_all(s.drop_last(), p);
        assert(s.drop_last().push(s.last()) =~= s);
    }
}

/// Removing the clip just added, under an id no other clip has, gives back
/// the clips as they were.
pub proof fn lemma_add_then_remove_clip(s: Seq<ClipView>, c: ClipView, id: u64, start: u64)
    requires
        !has_clip(s, id),
    ensures
        without_clip(s.push(placed(c, id, start)), id) == s,
{
    reveal_with_fuel(Seq::filter, 1);
    let p = |x: ClipView| x.id != id;
    let t = s.push(placed(c, id, start));
    assert(t.drop_last() =~= s);
    assert forall|i: int| 0 <= i < s.len() implies #[trigger] p(s[i]) by {
        assert(s[i].id != id);
    }
    lemma_filter_all(s, p);
}

/// Removing the overlay just added, under an id no other overlay has, gives
/// back the overlays as they were.
pub proof fn lemma_add_then_remove_overlay(s: Seq<TextOverlayView>, o: TextOverlayView, id: u64)
    requires
        !has_overlay(s, id),
    ensures
        without_overlay(s.push(with_overlay_id(o, id)), id) == s,
{
    reveal_with_fuel(Seq::filter, 1);
    let p = |x: TextOverlayView| x.id != id;
    let t = s.push(with_overlay_id(o, id));
    assert(t.drop_last() =~= s);
    assert forall|i: int| 0 <= i < s.len() implies #[trigger] p(s[i]) by {
        assert(s[i].id != id);
    }
    lemma_filter_all(s, p);
}

/// A split leaves every clip with another id in place.
proof fn lemma_split_step_keeps(s: Seq<ClipView>, n: u64, id: u64, at: u64, x: ClipView)
    requires
        s.contains(x),
        x.id != id,
    ensures
        split_step(s, n, id, at).0.contains(x),
{
    if splits(s, id, at) {
        let i = choose|i: int| first_clip_index(s, id, i) && cuts(s[i], at);
        let v = s.update(i, first_half(s[i], at)).push(second_half(s[i], at, n));
        let k = choose|k: int| 0 <= k < s.len() && s[k] == x;
        assert(k != i);
        assert(v[k] == x);
        assert(v.contains(x));
        lemma_sort_by_start(v);
    }
}

/// A run of splits leaves every clip whose id is not split in place.
proof fn lemma_split_each_keeps(s: Seq<ClipView>, n: u64, ids: Seq<u64>, at: u64, x: ClipView)
    requires
        s.contains(x),
        !ids.contains(x.id),
    ensures
        split_each(s, n, ids, at).0.contains(x),
    decreases ids.len(),
{
    if ids.len() > 0 {
        let t = ids.drop_last();
        assert(!t.contains(x.id)) by {
            if t.contains(x.id) {
                let k = choose|k: int| 0 <= k < t.len() && t[k] == x.id;
                assert(ids[k] == x.id);
            }
        }
        lemma_split_each_keeps(s, n, t, at, x);
        let p = split_each(s, n, t, at);
        assert(ids[ids.len() - 1] != x.id);
        lemma_split_step_keeps(p.0, p.1, ids.last(), at, x);
    }
}

/// With distinct ids, a clip that does not overlap the range is not among
/// the overlapping ids.
proof fn lemma_not_overlapping_id(s: Seq<ClipView>, a: u64, b: u64, x: ClipView)
    requires
        distinct_clip_ids(s),
        s.contains(x),
        !overlaps(x, a, b),
    ensures
        !overlapping_ids(s, a, b).contains(x.id),
{
    broadcast use vstd::seq_lib::group_filter_ensures;
    let p = |c: ClipView| overlaps(c, a, b);
    let f = s.filter(p);
    lemma_clip_filter(s, p);
    if overlapping_ids(s, a, b).contains(x.id) {
        let k = choose|k: int| 0 <= k < overlapping_ids(s, a, b).len() && overlapping_ids(s, a, b)[k] == x.id;
        assert(f[k].id == x.id);
        assert(p(f[k]));
        assert(f.contains(f[k]));
        let m = choose|m: int| 0 <= m < s.len() && s[m] == f[k];
        let q = choose|q: int| 0 <= q < s.len() && s[q] == x;
        if m < q {
            assert(s[m].id != s[q].id);
        } else if q < m {
            assert(s[q].id != s[m].id);
        }
    }
}

/// Cutting `[a, b]` leaves the clips that end by `a` untouched and moves the
/// clips that start at or after `b` left by `b - a`; the clips come out in
/// order of start.
pub proof fn lemma_cut_keeps_outside(s: Seq<ClipView>, n: u64, a: u64, b: u64, c: ClipView)
    requires
        all_fit(s),
        distinct_clip_ids(s),
        forall|i: int| 0 <= i < s.len() ==> #[trigger] s[i].id < n,
        n + crossing(s, a) + crossing(s, b) <= u64::MAX,
        a < b,
        s.contains(c),
    ensures
        sorted_by_start(cut_result(s, n, a, b).0),
        c.timeline_start < a && c.end_pos() <= a ==> cut_result(s, n, a, b).0.contains(c),
        c.timeline_start >= b && c.end_pos() > b ==> cut_result(s, n, a, b).0.contains(
            ClipView { timeline_start: (c.timeline_start - (b - a)) as u64, ..c },
        ),
{
    let ids1 = overlapping_ids(s, a, b);
    let pov = |x: ClipView| overlaps(x, a, b);
    s.lemma_filter_len(pov);
    lemma_split_each(s, n, ids1, a);
    lemma_split_each_crossing(s, n, ids1, a, b);
    let p1 = split_each(s, n, ids1, a);
    let ids2 = overlapping_ids(p1.0, a, b);
    p1.0.lemma_filter_len(pov);
    lemma_split_each(p1.0, p1.1, ids2, b);
    let p2 = split_each(p1.0, p1.1, ids2, b);
    let keep = |x: ClipView| !inside(x, a, b);
    let kept = p2.0.filter(keep);
    let g = |x: ClipView| close_gap(x, b, (b - a) as u64);
    let moved = kept.map_values(g);
    lemma_sort_by_start(moved);
    if (c.timeline_start < a && c.end_pos() <= a) || (c.timeline_start >= b && c.end_pos() > b) {
        lemma_not_overlapping_id(s, a, b, c);
        lemma_split_each_keeps(s, n, ids1, a, c);
        lemma_not_overlapping_id(p1.0, a, b, c);
        lemma_split_each_keeps(p1.0, p1.1, ids2, b, c);
        let k = choose|k: int| 0 <= k < p2.0.len() && p2.0[k] == c;
        broadcast use vstd::seq_lib::group_filter_ensures;
        assert(keep(p2.0[k]));
        assert(kept.contains(c));
        let m = choose|m: int| 0 <= m < kept.len() && kept[m] == c;
        assert(moved[m] == g(c));
        assert(moved.contains(g(c)));
    }
}

/// After a split at `at`, a clip across `at` was there before, under
/// another id than the one split.
proof fn lemma_split_step_across(s: Seq<ClipView>, n: u64, id: u64, at: u64, x: ClipView)
    requires
        distinct_clip_ids(s),
        split_step(s, n, id, at).0.contains(x),
        cuts(x, at),
    ensures
        s.contains(x),
        x.id != id,
{
    if splits(s, id, at) {
        let i = choose|i: int| first_clip_index(s, id, i) && cuts(s[i], at);
        let v = s.update(i, first_half(s[i], at)).push(second_half(s[i], at, n));
        lemma_sort_by_start(v);
        let k = choose|k: int| 0 <= k < v.len() && v[k] == x;
        assert(k != i && k != s.len());
        assert(s[k] == x);
        assert(s[k].id != s[i].id);
    } else {
        let k = choose|k: int| 0 <= k < s.len() && s[k] == x;
        if x.id == id {
            assert forall|j: int| 0 <= j < k implies s[j].id != id by {
                assert(s[j].id != s[k].id);
            }
            assert(first_clip_index(s, id, k) && cuts(s[k], at));
            assert(false);
        }
    }
}

/// After a run of splits at `at`, a clip across `at` is one that was there
/// before under an id not in the run.
proof fn lemma_split_each_across(s: Seq<ClipView>, n: u64, ids: Seq<u64>, at: u64, x: ClipView)
    requires
        all_fit(s),
        n + crossing(s, at) <= u64::MAX,
        distinct_clip_ids(s),
        forall|i: int| 0 <= i < s.len() ==> #[trigger] s[i].id < n,
        split_each(s, n, ids, at).0.contains(x),
        cuts(x, at),
    ensures
        s.contains(x),
        !ids.contains(x.id),
    decreases ids.len(),
{
    if ids.len() > 0 {
        let t = ids.drop_last();
        lemma_split_each(s, n, t, at);
        let p = split_each(s, n, t, at);
        lemma_split_step_across(p.0, p.1, ids.last(), at, x);
        lemma_split_each_across(s, n, t, at, x);
        if ids.contains(x.id) {
            let k = choose|k: int| 0 <= k < ids.len() && ids[k] == x.id;
            if k < t.len() {
                assert(t[k] == x.id);
            }
        }
    }
}

/// A split at `b` leaves no clip across `a < b` when there was none.
proof fn lemma_split_step_not_across(s: Seq<ClipView>, n: u64, id: u64, a: u64, b: u64)
    requires
        a < b,
        forall|x: ClipView| #[trigger] s.contains(x) ==> !cuts(x, a),
    ensures
        forall|x: ClipView| #[trigger] split_step(s, n, id, b).0.contains(x) ==> !cuts(x, a),
{
    if splits(s, id, b) {
        let i = choose|i: int| first_clip_index(s, id, i) && cuts(s[i], b);
        let v = s.update(i, first_half(s[i], b)).push(second_half(s[i], b, n));
        lemma_sort_by_start(v);
        assert(s.contains(s[i]));
        assert forall|x: ClipView| #[trigger] split_step(s, n, id, b).0.contains(x) implies !cuts(x, a) by {
            let k = choose|k: int| 0 <= k < v.len() && v[k] == x;
            if k < s.len() && k != i {
                assert(s.contains(s[k]));
            }
        }
    }
}

/// A run of splits at `b` leaves no clip across `a < b` when there was none.
proof fn lemma_split_each_not_across(s: Seq<ClipView>, n: u64, ids: Seq<u64>, a: u64, b: u64)
    requires
        a < b,
        forall|x: ClipView| #[trigger] s.contains(x) ==> !cuts(x, a),
    ensures
        forall|x: ClipView| #[trigger] split_each(s, n, ids, b).0.contains(x) ==> !cuts(x, a),
    decreases ids.len(),
{
    if ids.len() > 0 {
        let t = ids.drop_last();
        lemma_split_each_not_across(s, n, t, a, b);
        let p = split_each(s, n, t, b);
        lemma_split_step_not_across(p.0, p.1, ids.last(), a, b);
    }
}

/// A clip that overlaps the range has its id among the overlapping ids.
proof fn lemma_overlapping_id(s: Seq<ClipView>, a: u64, b: u64, x: ClipView)
    requires
        s.contains(x),
        overlaps(x, a, b),
    ensures
        overlapping_ids(s, a, b).contains(x.id),
{
    broadcast use vstd::seq_lib::group_filter_ensures;
    let p = |c: ClipView| overlaps(c, a, b);
    let f = s.filter(p);
    assert(f.contains(x));
    let k = choose|k: int| 0 <= k < f.len() && f[k] == x;
    assert(overlapping_ids(s, a, b)[k] == x.id);
}

/// Cutting `[a, b]` leaves nothing across the cut point: every clip that
/// remains ends by `a` or starts at or after it.
pub proof fn lemma_cut_leaves_nothing_across(s: Seq<ClipView>, n: u64, a: u64, b: u64)
    requires
        all_fit(s),
        distinct_clip_ids(s),
        forall|i: int| 0 <= i < s.len() ==> #[trigger] s[i].id < n,
        n + crossing(s, a) + crossing(s, b) <= u64::MAX,
        a < b,
    ensures
        forall|x: ClipView| #[trigger] cut_result(s, n, a, b).0.contains(x)
            ==> x.end_pos() <= a || x.timeline_start >= a,
{
    let ids1 = overlapping_ids(s, a, b);
    let pov = |x: ClipView| overlaps(x, a, b);
    s.lemma_filter_len(pov);
    lemma_split_each(s, n, ids1, a);
    lemma_split_each_crossing(s, n, ids1, a, b);
    let p1 = split_each(s, n, ids1, a);
    assert forall|x: ClipView| #[trigger] p1.0.contains(x) implies !cuts(x, a) by {
        if cuts(x, a) {
            lemma_split_each_across(s, n, ids1, a, x);
            lemma_overlapping_id(s, a, b, x);
        }
    }
    let ids2 = overlapping_ids(p1.0, a, b);
    lemma_split_each_not_across(p1.0, p1.1, ids2, a, b);
    let p2 = split_each(p1.0, p1.1, ids2, b);
    let keep = |x: ClipView| !inside(x, a, b);
    let kept = p2.0.filter(keep);
    let g = |x: ClipView| close_gap(x, b, (b - a) as u64);
    let moved = kept.map_values(g);
    lemma_sort_by_start(moved);
    assert forall|x: ClipView| #[trigger] cut_result(s, n, a, b).0.contains(x)
        implies x.end_pos() <= a || x.timeline_start >= a by {
        broadcast use vstd::seq_lib::group_filter_ensures;
        assert(moved.contains(x));
        let m = choose|m: int| 0 <= m < moved.len() && moved[m] == x;
        let y = kept[m];
        assert(kept.contains(y));
        p2.0.lemma_filter_contains_rev(keep, y);
        assert(p2.0.contains(y));
        assert(!cuts(y, a));
    }
}

/// A run of splits leaves the end of the timeline where it was.
proof fn lemma_split_each_keeps_total(s: Seq<ClipView>, n: u64, ids: Seq<u64>, at: u64)
    requires
        all_fit(s),
        n + crossing(s, at) <= u64::MAX,
    ensures
        total_of(split_each(s, n, ids, at).0) == total_of(s),
    decreases ids.len(),
{
    if ids.len() > 0 {
        let t = ids.drop_last();
        lemma_split_each_keeps_total(s, n, t, at);
        lemma_split_each(s, n, t, at);
        let p = split_each(s, n, t, at);
        lemma_split_keeps_total(p.0, p.1, ids.last(), at);
    }
}

/// A clip of `s` that ends after `at` still has its end after a run of
/// splits at `at`: some clip ends there and starts at or after `at`, unless
/// the clip itself is left as it was because its id is not in the run.
proof fn lemma_split_each_tail(s: Seq<ClipView>, n: u64, ids: Seq<u64>, at: u64, y: ClipView)
    requires
        all_fit(s),
        n + crossing(s, at) <= u64::MAX,
        distinct_clip_ids(s),
        forall|i: int| 0 <= i < s.len() ==> #[trigger] s[i].id < n,
        s.contains(y),
        y.end_pos() > at,
    ensures
        exists|x: ClipView| #[trigger] split_each(s, n, ids, at).0.contains(x) && x.end_pos() == y.end_pos()
            && (x.timeline_start >= at || (x == y && !ids.contains(y.id))),
    decreases ids.len(),
{
    if ids.len() == 0 {
        assert(split_each(s, n, ids, at).0.contains(y));
    } else {
        let t = ids.drop_last();
        let k = ids.last();
        lemma_split_each_tail(s, n, t, at, y);
        lemma_split_each(s, n, t, at);
        let p = split_each(s, n, t, at);
        let x0 = choose|x: ClipView| #[trigger] p.0.contains(x) && x.end_pos() == y.end_pos()
            && (x.timeline_start >= at || (x == y && !t.contains(y.id)));
        let r = split_step(p.0, p.1, k, at);
        assert(r == split_each(s, n, ids, at));
        let m = choose|m: int| 0 <= m < p.0.len() && p.0[m] == x0;
        if x0.id != k {
            lemma_split_step_keeps(p.0, p.1, k, at, x0);
            if !(x0.timeline_start >= at) {
                assert(!ids.contains(y.id)) by {
                    if ids.contains(y.id) {
                        let q = choose|q: int| 0 <= q < ids.len() && ids[q] == y.id;
                        if q < t.len() { assert(t[q] == y.id); }
                    }
                }
            }
            assert(r.0.contains(x0));
        } else if x0.timeline_start >= at {
            assert(!splits(p.0, k, at)) by {
                if splits(p.0, k, at) {
                    let i = choose|i: int| first_clip_index(p.0, k, i) && cuts(p.0[i], at);
                    if i != m {
                        if i < m { assert(p.0[i].id != p.0[m].id); } else { assert(p.0[m].id != p.0[i].id); }
                    }
                }
            }
            assert(r.0.contains(x0));
        } else {
            // The clip itself, across `at`, is the one split.
            assert(x0 == y);
            assert(cuts(p.0[m], at));
            assert forall|j: int| 0 <= j < m implies p.0[j].id != k by {
                assert(p.0[j].id != p.0[m].id);
            }
            assert(first_clip_index(p.0, k, m));
            assert(splits(p.0, k, at));
            let i = choose|i: int| first_clip_index(p.0, k, i) && cuts(p.0[i], at);
            assert(i == m) by {
                if i < m { assert(p.0[i].id != p.0[m].id); } else if i > m { assert(p.0[m].id != p.0[i].id); }
            }
            let v = p.0.update(i, first_half(p.0[i], at)).push(second_half(p.0[i], at, p.1));
            lemma_sort_by_start(v);
            let w = second_half(y, at, p.1);
            assert(v[p.0.len() as int] == w);
            assert(v.contains(w));
            assert(r.0.contains(w));
            assert(w.end_pos() == y.end_pos());
        }
    }
}

/// Cutting `[a, b]` out of a timeline that runs past `b` shortens it by
/// exactly `b - a`.
pub proof fn lemma_cut_shortens_total(s: Seq<ClipView>, n: u64, a: u64, b: u64)
    requires
        all_fit(s),
        distinct_clip_ids(s),
        forall|i: int| 0 <= i < s.len() ==> #[trigger] s[i].id < n,
        n + crossing(s, a) + crossing(s, b) <= u64::MAX,
        a < b,
        b < total_of(s),
    ensures
        total_of(cut_result(s, n, a, b).0) == total_of(s) - (b - a),
{
    broadcast use vstd::seq_lib::group_filter_ensures;
    let total = total_of(s);
    let gap = (b - a) as u64;
    lemma_total_facts(s);
    let k = choose|k: int| 0 <= k < s.len() && #[trigger] s[k].end_pos() == total;
    let y = s[k];
    assert(s.contains(y));

    // First pass: split at `a`.
    let ids1 = overlapping_ids(s, a, b);
    let pov = |x: ClipView| overlaps(x, a, b);
    s.lemma_filter_len(pov);
    lemma_split_each(s, n, ids1, a);
    lemma_split_each_crossing(s, n, ids1, a, b);
    lemma_split_each_keeps_total(s, n, ids1, a);
    let p1 = split_each(s, n, ids1, a);
    if y.timeline_start < b {
        lemma_overlapping_id(s, a, b, y);
    }
    lemma_split_each_tail(s, n, ids1, a, y);
    let x1 = choose|x: ClipView| #[trigger] p1.0.contains(x) && x.end_pos() == y.end_pos()
        && (x.timeline_start >= a || (x == y && !ids1.contains(y.id)));
    assert forall|x: ClipView| #[trigger] p1.0.contains(x) implies !cuts(x, a) by {
        if cuts(x, a) {
            lemma_split_each_across(s, n, ids1, a, x);
            lemma_overlapping_id(s, a, b, x);
        }
    }

    // Second pass: split at `b`.
    let ids2 = overlapping_ids(p1.0, a, b);
    p1.0.lemma_filter_len(pov);
    lemma_split_each(p1.0, p1.1, ids2, b);
    lemma_split_each_keeps_total(p1.0, p1.1, ids2, b);
    lemma_split_each_not_across(p1.0, p1.1, ids2, a, b);
    let p2 = split_each(p1.0, p1.1, ids2, b);
    if x1.timeline_start < b {
        lemma_overlapping_id(p1.0, a, b, x1);
    }
    lemma_split_each_tail(p1.0, p1.1, ids2, b, x1);
    let x2 = choose|x: ClipView| #[trigger] p2.0.contains(x) && x.end_pos() == x1.end_pos()
        && (x.timeline_start >= b || (x == x1 && !ids2.contains(x1.id)));
    assert(x2.timeline_start >= b);
    assert forall|x: ClipView| #[trigger] p2.0.contains(x) implies !cuts(x, b) by {
        if cuts(x, b) {
            lemma_split_each_across(p1.0, p1.1, ids2, b, x);
            lemma_overlapping_id(p1.0, a, b, x);
        }
    }
    lemma_total_facts(p2.0);

    // Keep what lies outside the range and close the gap.
    let keep = |x: ClipView| !inside(x, a, b);
    let kept = p2.0.filter(keep);
    let g = |x: ClipView| close_gap(x, b, gap);
    let moved = kept.map_values(g);
    lemma_sort_by_start(moved);
    let r = cut_result(s, n, a, b).0;
    assert(r == sort_by_start(moved));

    let m2 = choose|m: int| 0 <= m < p2.0.len() && p2.0[m] == x2;
    assert(keep(x2));
    assert(kept.contains(x2)) by {
        p2.0.lemma_filter_contains(keep, m2);
    }
    let q = choose|q: int| 0 <= q < kept.len() && kept[q] == x2;
    assert(moved[q] == g(x2));
    assert(moved.contains(g(x2)));
    assert(r.contains(g(x2)));
    assert(g(x2).end_pos() == total - gap);

    lemma_total_facts(r);
    let i2 = choose|i: int| 0 <= i < r.len() && r[i] == g(x2);
    assert(r[i2].end_pos() <= total_of(r));
    let j = choose|j: int| 0 <= j < r.len() && #[trigger] r[j].end_pos() == total_of(r);
    let z = r[j];
    assert(r.contains(z));
    assert(moved.contains(z));
    let mz = choose|m: int| 0 <= m < moved.len() && moved[m] == z;
    let w = kept[mz];
    assert(kept.contains(w));
    p2.0.lemma_filter_contains_rev(keep, w);
    let iw = choose|i: int| 0 <= i < p2.0.len() && p2.0[i] == w;
    assert(p2.0[iw].end_pos() <= total_of(p2.0));
    assert(keep(w)) by {
        let f = p2.0.filter(keep);
        assert(keep(f[mz]));
    }
    assert(!cuts(w, a) && !cuts(w, b));
    assert(z.end_pos() <= total - gap);
}

/// Clamping the playhead lands it within `[0, total]`, and clamping it
/// again leaves it where it is.
pub proof fn lemma_playhead_clamp(pos: int, total: nat)
    ensures
        0 <= clamp_to(pos, total) <= total,
        clamp_to(clamp_to(pos, total), total) == clamp_to(pos, total),
{
}

/// Inserting a clip into place keeps the clips that start at `v` in their
/// order, the inserted one last among them when it starts at `v` too.
proof fn lemma_insert_keeps_ties(t: Seq<ClipView>, c: ClipView, v: u64)
    ensures
        insert_by_start(t, c).filter(starts_at(v))
            == (if c.timeline_start == v { t.filter(starts_at(v)).push(c) } else { t.filter(starts_at(v)) }),
    decreases t.len(),
{
    let p = starts_at(v);
    if t.len() == 0 {
        Seq::<ClipView>::empty().lemma_filter_push(c, p);
        assert(seq![c] =~= Seq::<ClipView>::empty().push(c));
        assert(Seq::<ClipView>::empty().filter(p) =~= Seq::<ClipView>::empty()) by {
            reveal(Seq::filter);
        }
        assert(t =~= Seq::<ClipView>::empty());
    } else if t.last().timeline_start <= c.timeline_start {
        t.lemma_filter_push(c, p);
    } else {
        let d = t.drop_last();
        lemma_insert_keeps_ties(d, c, v);
        insert_by_start(d, c).lemma_filter_push(t.last(), p);
        d.lemma_filter_push(t.last(), p);
        assert(d.push(t.last()) =~= t);
    }
}

/// The sort by start is stable: the clips that start at any one time come
/// out in the order they went in.
pub proof fn lemma_sort_keeps_ties(s: Seq<ClipView>, v: u64)
    ensures
        sort_by_start(s).filter(starts_at(v)) == s.filter(starts_at(v)),
    decreases s.len(),
{
    if s.len() > 0 {
        let d = s.drop_last();
        lemma_sort_keeps_ties(d, v);
        lemma_insert_keeps_ties(sort_by_start(d), s.last(), v);
        d.lemma_filter_push(s.last(), starts_at(v));
        assert(d.push(s.last()) =~= s);
    }
}

/// Sorting the clips twice gives what sorting once gives.
pub proof fn lemma_sort_idempotent(s: Seq<ClipView>)
    ensures
        sort_by_start(sort_by_start(s)) == sort_by_start(s),
{
    lemma_sort_by_start(s);
    lemma_sort_of_sorted(sort_by_start(s));
}

} // verus!
