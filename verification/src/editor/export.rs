//! What an export runs: the ffmpeg command line for a timeline, where the
//! ffmpeg tools are looked for, and how ffmpeg's progress output is read.
use vstd::prelude::*;
use crate::editor::clip::{Clip, ClipView};
use crate::editor::text_overlay::{TextOverlay, TextOverlayView};
use crate::editor::timeline::{clip_views, overlay_views, Timeline};
use crate::text::{
    dec, fixed, hex2, parse_i64, parse_i64_chars, push_chars, push_dec, push_fixed, push_hex2, push_str,
    str_chars, string_from_chars, trim_chars, trimmed,
};

verus! {

/// A time in microseconds, written in seconds ("2.5", "10").
pub open spec fn secs(v: u64) -> Seq<char> {
    fixed(v as nat, 6)
}

/// A fraction in thousandths, written as a decimal ("0.5", "0.35").
pub open spec fn thousandths(v: u32) -> Seq<char> {
    fixed(v as nat, 3)
}

/// The trim filter of clip number `i`.
pub open spec fn trim_filter(i: nat, c: ClipView) -> Seq<char> {
    "["@ + dec(i) + ":v]trim=start="@ + secs(c.trim_start) + ":end="@ + secs(c.trim_end)
        + ",setpts=1*(PTS-STARTPTS)[v"@ + dec(i) + "];"@
}

/// The trim filters of all clips, in order.
pub open spec fn trim_filters(cs: Seq<ClipView>) -> Seq<char>
    decreases cs.len(),
{
    if cs.len() == 0 {
        Seq::empty()
    } else {
        trim_filters(cs.drop_last()) + trim_filter((cs.len() - 1) as nat, cs.last())
    }
}

/// The labels `[v0][v1]...` of the first `n` trimmed streams.
pub open spec fn concat_inputs(n: nat) -> Seq<char>
    decreases n,
{
    if n == 0 {
        Seq::empty()
    } else {
        concat_inputs((n - 1) as nat) + "[v"@ + dec((n - 1) as nat) + "]"@
    }
}

/// A character of a drawtext text, escaped for the filter graph.
pub open spec fn escape_char(c: char) -> Seq<char> {
    if c == '\\' {
        "\\\\\\\\"@
    } else if c == '\'' {
        "'\\\\\\''"@
    } else if c == ':' {
        "\\\\:"@
    } else {
        seq![c]
    }
}

/// A drawtext text, escaped character by character.
pub open spec fn escape_text(s: Seq<char>) -> Seq<char>
    decreases s.len(),
{
    if s.len() == 0 {
        Seq::empty()
    } else {
        escape_text(s.drop_last()) + escape_char(s.last())
    }
}

/// `#rrggbbaa` in lowercase hexadecimal.
pub open spec fn font_color(c: [u8; 4]) -> Seq<char> {
    "#"@ + hex2(c[0]) + hex2(c[1]) + hex2(c[2]) + hex2(c[3])
}

/// The stream label that overlay number `i` of `count` writes.
pub open spec fn overlay_output(i: nat, count: nat) -> Seq<char> {
    if i + 1 == count { "outv"@ } else { "txt"@ + dec(i) }
}

/// The stream label that overlay number `i` reads.
pub open spec fn overlay_input(i: nat) -> Seq<char> {
    if i == 0 { "concatv"@ } else { "txt"@ + dec((i - 1) as nat) }
}

/// The drawtext filter of overlay number `i` of `count`.
pub open spec fn drawtext(i: nat, count: nat, o: TextOverlayView) -> Seq<char> {
    drawtext_head(i, o) + drawtext_place(o) + drawtext_tail(i, count, o)
}

/// Input stream, text, size and colour of a drawtext filter.
pub open spec fn drawtext_head(i: nat, o: TextOverlayView) -> Seq<char> {
    ";["@ + overlay_input(i) + "]drawtext=text='"@ + escape_text(o.text) + "':fontsize="@
        + dec(o.font_size as nat) + ":fontcolor="@ + font_color(o.color)
}

/// Position of a drawtext filter.
pub open spec fn drawtext_place(o: TextOverlayView) -> Seq<char> {
    ":x='w*"@ + thousandths(o.x) + "-tw/2':y='h*"@ + thousandths(o.y) + "-th/2'"@
}

/// Time range and output stream of a drawtext filter.
pub open spec fn drawtext_tail(i: nat, count: nat, o: TextOverlayView) -> Seq<char> {
    ":enable='between(t,"@ + secs(o.start) + ","@ + secs(o.end) + ")'["@ + overlay_output(i, count) + "]"@
}

/// The drawtext filters of the first overlays, of `count` in all.
pub open spec fn drawtexts(os: Seq<TextOverlayView>, count: nat) -> Seq<char>
    decreases os.len(),
{
    if os.len() == 0 {
        Seq::empty()
    } else {
        drawtexts(os.drop_last(), count) + drawtext((os.len() - 1) as nat, count, os.last())
    }
}

/// The whole filter graph: trim every clip, concatenate, then draw the texts.
pub open spec fn filter_graph(cs: Seq<ClipView>, os: Seq<TextOverlayView>) -> Seq<char> {
    trim_filters(cs) + concat_inputs(cs.len()) + "concat=n="@ + dec(cs.len()) + ":v=1:a=0[concatv]"@
        + (if os.len() == 0 { ";[concatv]null[outv]"@ } else { drawtexts(os, os.len()) })
}

/// `-i <source>` for every clip, in order.
pub open spec fn input_args(cs: Seq<ClipView>) -> Seq<Seq<char>>
    decreases cs.len(),
{
    if cs.len() == 0 {
        Seq::empty()
    } else {
        input_args(cs.drop_last()) + seq!["-i"@, cs.last().source_path]
    }
}

/// The trims of the first `k` clips open the trims of all of them.
proof fn lemma_trim_filters_prefix(cs: Seq<ClipView>, k: int)
    requires
        0 <= k <= cs.len(),
    ensures
        trim_filters(cs.take(k)).len() <= trim_filters(cs).len(),
        trim_filters(cs).subrange(0, trim_filters(cs.take(k)).len() as int) == trim_filters(cs.take(k)),
    decreases cs.len(),
{
    if k == cs.len() {
        assert(cs.take(k) =~= cs);
        assert(trim_filters(cs).subrange(0, trim_filters(cs).len() as int) =~= trim_filters(cs));
    } else {
        let t = cs.drop_last();
        lemma_trim_filters_prefix(t, k);
        assert(t.take(k) =~= cs.take(k));
        let a = trim_filters(t);
        let p = trim_filters(cs.take(k));
        assert((a + trim_filter((cs.len() - 1) as nat, cs.last())).subrange(0, p.len() as int)
            =~= a.subrange(0, p.len() as int));
    }
}

/// The `-i` arguments list every clip's source, in order: input `i` is the
/// source of clip `i`.
proof fn lemma_input_args(cs: Seq<ClipView>)
    ensures
        input_args(cs).len() == 2 * cs.len(),
        forall|i: int| #![trigger cs[i]] 0 <= i < cs.len()
            ==> input_args(cs).subrange(2 * i, 2 * i + 2) == seq!["-i"@, cs[i].source_path],
    decreases cs.len(),
{
    if cs.len() > 0 {
        let t = cs.drop_last();
        lemma_input_args(t);
        let a = input_args(t);
        let b = seq!["-i"@, cs.last().source_path];
        assert(input_args(cs) == a + b);
        assert forall|i: int| #![trigger cs[i]] 0 <= i < cs.len()
            implies input_args(cs).subrange(2 * i, 2 * i + 2) == seq!["-i"@, cs[i].source_path] by {
            if i < t.len() {
                assert(t[i] == cs[i]);
                assert(a.subrange(2 * i, 2 * i + 2) == seq!["-i"@, t[i].source_path]);
                assert((a + b).subrange(2 * i, 2 * i + 2) =~= a.subrange(2 * i, 2 * i + 2));
            } else {
                assert((a + b).subrange(2 * i, 2 * i + 2) =~= b);
            }
        }
    }
}

/// In an export, clip `i` is cut from input `i`: the `-i` arguments name
/// the clips' sources in order, and in the filter graph, right after the
/// trims of the clips before it, comes the trim of clip `i`, which reads
/// stream `[i:v]` from the clip's trim start to its trim end and labels the
/// result `[vi]`.
pub proof fn lemma_clip_is_cut_from_its_own_input(cs: Seq<ClipView>, os: Seq<TextOverlayView>, i: int)
    requires
        0 <= i < cs.len(),
    ensures
        input_args(cs).len() == 2 * cs.len(),
        input_args(cs).subrange(2 * i, 2 * i + 2) == seq!["-i"@, cs[i].source_path],
        ({
            let head = trim_filters(cs.take(i)) + ("["@ + dec(i as nat) + ":v]trim=start="@ + secs(cs[i].trim_start)
                + ":end="@ + secs(cs[i].trim_end) + ",setpts=1*(PTS-STARTPTS)[v"@ + dec(i as nat) + "];"@);
            &&& head.len() <= filter_graph(cs, os).len()
            &&& filter_graph(cs, os).subrange(0, head.len() as int) == head
        }),
{
    lemma_input_args(cs);
    assert(input_args(cs).subrange(2 * i, 2 * i + 2) == seq!["-i"@, cs[i].source_path]);
    lemma_graph_opens_with_trims(cs, os, i + 1);
    let t = cs.take(i + 1);
    assert(t.drop_last() =~= cs.take(i));
    assert(t.last() == cs[i]);
    assert(trim_filters(t) == trim_filters(cs.take(i)) + trim_filter(i as nat, cs[i]));
}

/// The trims of the first `k` clips open the filter graph.
proof fn lemma_graph_opens_with_trims(cs: Seq<ClipView>, os: Seq<TextOverlayView>, k: int)
    requires
        0 <= k <= cs.len(),
    ensures
        trim_filters(cs.take(k)).len() <= filter_graph(cs, os).len(),
        filter_graph(cs, os).subrange(0, trim_filters(cs.take(k)).len() as int) == trim_filters(cs.take(k)),
{
    lemma_trim_filters_prefix(cs, k);
    let g = filter_graph(cs, os);
    let tf = trim_filters(cs);
    let p = trim_filters(cs.take(k));
    assert(g.subrange(0, tf.len() as int) =~= tf);
    assert(g.subrange(0, p.len() as int) =~= tf.subrange(0, p.len() as int));
}

/// The concat filter joins the `n` trimmed streams, each once and in order:
/// right after the trims the graph reads `[v0][v1]...[v(n-1)]`, one label
/// after the other, and then `concat=n=<n>`.
pub proof fn lemma_concat_joins_each_stream_once(cs: Seq<ClipView>, os: Seq<TextOverlayView>)
    ensures
        concat_inputs(0) == Seq::<char>::empty(),
        forall|k: int| 0 <= k < cs.len() ==> #[trigger] concat_inputs((k + 1) as nat)
            == concat_inputs(k as nat) + "[v"@ + dec(k as nat) + "]"@,
        forall|k: int| 0 <= k < cs.len() ==> ({
            let head = trim_filters(cs) + #[trigger] concat_inputs(k as nat) + "[v"@ + dec(k as nat) + "]"@;
            &&& head.len() <= filter_graph(cs, os).len()
            &&& filter_graph(cs, os).subrange(0, head.len() as int) == head
        }),
        ({
            let head = trim_filters(cs) + concat_inputs(cs.len()) + "concat=n="@ + dec(cs.len());
            &&& head.len() <= filter_graph(cs, os).len()
            &&& filter_graph(cs, os).subrange(0, head.len() as int) == head
        }),
{
    let n = cs.len();
    let tf = trim_filters(cs);
    let g = filter_graph(cs, os);
    let rest = "concat=n="@ + dec(n) + ":v=1:a=0[concatv]"@
        + (if os.len() == 0 { ";[concatv]null[outv]"@ } else { drawtexts(os, os.len()) });
    assert(g =~= tf + concat_inputs(n) + rest);
    assert forall|k: int| 0 <= k < cs.len() implies ({
        let head = tf + #[trigger] concat_inputs(k as nat) + "[v"@ + dec(k as nat) + "]"@;
        &&& head.len() <= g.len()
        &&& g.subrange(0, head.len() as int) == head
    }) by {
        lemma_label_opens_graph(cs, os, k);
    }
    let head = tf + concat_inputs(n) + "concat=n="@ + dec(n);
    assert(g.subrange(0, head.len() as int) =~= head);
}

/// The label of stream `k` follows the labels before it, right after the
/// trims.
proof fn lemma_label_opens_graph(cs: Seq<ClipView>, os: Seq<TextOverlayView>, k: int)
    requires
        0 <= k < cs.len(),
    ensures
        ({
            let head = trim_filters(cs) + concat_inputs(k as nat) + "[v"@ + dec(k as nat) + "]"@;
            &&& head.len() <= filter_graph(cs, os).len()
            &&& filter_graph(cs, os).subrange(0, head.len() as int) == head
        }),
{
    let n = cs.len();
    let tf = trim_filters(cs);
    let g = filter_graph(cs, os);
    let rest = "concat=n="@ + dec(n) + ":v=1:a=0[concatv]"@
        + (if os.len() == 0 { ";[concatv]null[outv]"@ } else { drawtexts(os, os.len()) });
    assert(g =~= tf + concat_inputs(n) + rest);
    lemma_concat_inputs_prefix(n, (k + 1) as nat);
    let c = concat_inputs((k + 1) as nat);
    assert(c == concat_inputs(k as nat) + "[v"@ + dec(k as nat) + "]"@);
    assert(g.subrange(0, (tf + c).len() as int) =~= tf + concat_inputs(n).subrange(0, c.len() as int));
}

/// The labels of the first `k` streams open the labels of the first `n`.
proof fn lemma_concat_inputs_prefix(n: nat, k: nat)
    requires
        k <= n,
    ensures
        concat_inputs(k).len() <= concat_inputs(n).len(),
        concat_inputs(n).subrange(0, concat_inputs(k).len() as int) == concat_inputs(k),
    decreases n,
{
    if k == n {
        assert(concat_inputs(n).subrange(0, concat_inputs(n).len() as int) =~= concat_inputs(n));
    } else {
        lemma_concat_inputs_prefix((n - 1) as nat, k);
        let a = concat_inputs((n - 1) as nat);
        let p = concat_inputs(k);
        assert((a + "[v"@ + dec((n - 1) as nat) + "]"@).subrange(0, p.len() as int) =~= a.subrange(0, p.len() as int));
    }
}

/// The audio arguments for the paired WAV file, when there is one.
pub open spec fn audio_args(n: nat, audio: Option<Seq<char>>) -> Seq<Seq<char>> {
    match audio {
        Some(a) => seq!["-i"@, a, "-map"@, dec(n) + ":a"@, "-c:a"@, "aac"@, "-shortest"@],
        None => Seq::empty(),
    }
}

/// The ffmpeg arguments that render the clips and overlays to `output`.
pub open spec fn export_args(
    cs: Seq<ClipView>,
    os: Seq<TextOverlayView>,
    output: Seq<char>,
    audio: Option<Seq<char>>,
) -> Seq<Seq<char>> {
    input_args(cs) + seq!["-filter_complex"@, filter_graph(cs, os), "-map"@, "[outv]"@]
        + audio_args(cs.len(), audio) + seq![
        "-c:v"@,
        "libx264"@,
        "-pix_fmt"@,
        "yuv420p"@,
        "-progress"@,
        "pipe:2"@,
        "-y"@,
        output,
    ]
}

/// The views of a sequence of strings.
pub open spec fn string_views(v: Seq<String>) -> Seq<Seq<char>> {
    v.map_values(|s: String| s@)
}

fn push_trim_filter(out: &mut Vec<char>, i: usize, c: &Clip)
    ensures
        final(out)@ == old(out)@ + trim_filter(i as nat, c@),
{
    push_str(out, "[");
    push_dec(out, i as u64);
    push_str(out, ":v]trim=start=");
    push_fixed(out, c.trim_start, 6);
    push_str(out, ":end=");
    push_fixed(out, c.trim_end, 6);
    push_str(out, ",setpts=1*(PTS-STARTPTS)[v");
    push_dec(out, i as u64);
    push_str(out, "];");
    assert(final(out)@ =~= old(out)@ + trim_filter(i as nat, c@));
}

fn push_escaped(out: &mut Vec<char>, text: &String)
    ensures
        final(out)@ == old(out)@ + escape_text(text@),
{
    let chars = str_chars(text.as_str());
    let n = chars.len();
    let ghost start = out@;
    let mut i: usize = 0;
    while i < n
        invariant
            n == chars@.len(),
            i <= n,
            out@ == start + escape_text(chars@.take(i as int)),
        decreases n - i,
    {
        let c = chars[i];
        if c == '\\' {
            push_str(out, "\\\\\\\\");
        } else if c == '\'' {
            push_str(out, "'\\\\\\''");
        } else if c == ':' {
            push_str(out, "\\\\:");
        } else {
            out.push(c);
        }
        proof {
            assert(chars@.take(i as int + 1).drop_last() =~= chars@.take(i as int));
        }
        assert(out@ =~= start + escape_text(chars@.take(i as int + 1)));
        i = i + 1;
    }
    assert(chars@.take(n as int) =~= chars@);
}

fn push_drawtext_head(out: &mut Vec<char>, i: usize, o: &TextOverlay)
    ensures
        final(out)@ == old(out)@ + drawtext_head(i as nat, o@),
{
    push_str(out, ";[");
    if i == 0 {
        push_str(out, "concatv");
    } else {
        push_str(out, "txt");
        push_dec(out, (i - 1) as u64);
    }
    push_str(out, "]drawtext=text='");
    push_escaped(out, &o.text);
    push_str(out, "':fontsize=");
    push_dec(out, o.font_size as u64);
    push_str(out, ":fontcolor=");
    let ghost before_color = out@;
    push_str(out, "#");
    push_hex2(out, o.color[0]);
    push_hex2(out, o.color[1]);
    push_hex2(out, o.color[2]);
    push_hex2(out, o.color[3]);
    assert(out@ =~= before_color + font_color(o.color));
    assert(final(out)@ =~= old(out)@ + drawtext_head(i as nat, o@));
}

fn push_drawtext_place(out: &mut Vec<char>, o: &TextOverlay)
    ensures
        final(out)@ == old(out)@ + drawtext_place(o@),
{
    push_str(out, ":x='w*");
    push_fixed(out, o.x as u64, 3);
    push_str(out, "-tw/2':y='h*");
    push_fixed(out, o.y as u64, 3);
    push_str(out, "-th/2'");
    assert(final(out)@ =~= old(out)@ + drawtext_place(o@));
}

fn push_drawtext_tail(out: &mut Vec<char>, i: usize, count: usize, o: &TextOverlay)
    requires
        i < count,
    ensures
        final(out)@ == old(out)@ + drawtext_tail(i as nat, count as nat, o@),
{
    push_str(out, ":enable='between(t,");
    push_fixed(out, o.start, 6);
    push_str(out, ",");
    push_fixed(out, o.end, 6);
    push_str(out, ")'[");
    if i + 1 == count {
        push_str(out, "outv");
    } else {
        push_str(out, "txt");
        push_dec(out, i as u64);
    }
    push_str(out, "]");
    assert(final(out)@ =~= old(out)@ + drawtext_tail(i as nat, count as nat, o@));
}

fn push_drawtext(out: &mut Vec<char>, i: usize, count: usize, o: &TextOverlay)
    requires
        i < count,
    ensures
        final(out)@ == old(out)@ + drawtext(i as nat, count as nat, o@),
{
    push_drawtext_head(out, i, o);
    push_drawtext_place(out, o);
    push_drawtext_tail(out, i, count, o);
    assert(final(out)@ =~= old(out)@ + drawtext(i as nat, count as nat, o@));
}

/// The filter graph of the given clips and overlays.
pub fn build_filter_graph(clips: &[Clip], overlays: &[TextOverlay]) -> (r: String)
    ensures
        r@ == filter_graph(clip_views(clips@), overlay_views(overlays@)),
{
    let ghost cs = clip_views(clips@);
    let ghost os = overlay_views(overlays@);
    let mut out: Vec<char> = Vec::new();
    let n = clips.len();
    let mut i: usize = 0;
    while i < n
        invariant
            n == cs.len(),
            cs == clip_views(clips@),
            i <= n,
            out@ == trim_filters(cs.take(i as int)),
        decreases n - i,
    {
        push_trim_filter(&mut out, i, &clips[i]);
        proof {
            assert(cs.take(i as int + 1).drop_last() =~= cs.take(i as int));
        }
        i = i + 1;
    }
    assert(cs.take(n as int) =~= cs);
    let ghost after_trims = out@;
    let mut k: usize = 0;
    while k < n
        invariant
            n == cs.len(),
            k <= n,
            out@ == after_trims + concat_inputs(k as nat),
        decreases n - k,
    {
        push_str(&mut out, "[v");
        push_dec(&mut out, k as u64);
        push_str(&mut out, "]");
        assert(out@ =~= after_trims + concat_inputs(k as nat + 1));
        k = k + 1;
    }
    push_str(&mut out, "concat=n=");
    push_dec(&mut out, n as u64);
    push_str(&mut out, ":v=1:a=0[concatv]");
    let ghost before_texts = out@;
    let m = overlays.len();
    if m == 0 {
        push_str(&mut out, ";[concatv]null[outv]");
    } else {
        let mut j: usize = 0;
        while j < m
            invariant
                m == os.len(),
                os == overlay_views(overlays@),
                j <= m,
                m > 0,
                out@ == before_texts + drawtexts(os.take(j as int), m as nat),
            decreases m - j,
        {
            push_drawtext(&mut out, j, m, &overlays[j]);
            proof {
                assert(os.take(j as int + 1).drop_last() =~= os.take(j as int));
            }
            assert(out@ =~= before_texts + drawtexts(os.take(j as int + 1), m as nat));
            j = j + 1;
        }
        assert(os.take(m as int) =~= os);
    }
    assert(out@ =~= filter_graph(cs, os));
    string_from_chars(&out)
}

/// The ffmpeg arguments that render the timeline to `output_path`, with the
/// audio of `audio_path` when given.
pub fn build_ffmpeg_args(timeline: &Timeline, output_path: &str, audio_path: Option<String>) -> (r: Vec<String>)
    ensures
        string_views(r@) == export_args(
            timeline.clip_seq(),
            timeline.overlay_seq(),
            output_path@,
            match audio_path { Some(a) => Some(a@), None => None },
        ),
{
    let clips = timeline.clips();
    let overlays = timeline.text_overlays();
    let ghost cs = timeline.clip_seq();
    let ghost os = timeline.overlay_seq();
    let n = clips.len();
    let mut args: Vec<String> = Vec::new();
    let mut i: usize = 0;
    while i < n
        invariant
            n == cs.len(),
            cs == clip_views(clips@),
            i <= n,
            string_views(args@) == input_args(cs.take(i as int)),
        decreases n - i,
    {
        args.push(String::from_str("-i"));
        args.push(clips[i].source_path.clone());
        proof {
            assert(cs.take(i as int + 1).drop_last() =~= cs.take(i as int));
        }
        assert(string_views(args@) =~= input_args(cs.take(i as int + 1)));
        i = i + 1;
    }
    assert(cs.take(n as int) =~= cs);
    let ghost after_inputs = string_views(args@);
    args.push(String::from_str("-filter_complex"));
    args.push(build_filter_graph(clips, overlays));
    args.push(String::from_str("-map"));
    args.push(String::from_str("[outv]"));
    let ghost after_map = string_views(args@);
    assert(after_map =~= input_args(cs) + seq!["-filter_complex"@, filter_graph(cs, os), "-map"@, "[outv]"@]);
    match audio_path {
        Some(a) => {
            args.push(String::from_str("-i"));
            args.push(a);
            args.push(String::from_str("-map"));
            let mut m: Vec<char> = Vec::new();
            push_dec(&mut m, n as u64);
            push_str(&mut m, ":a");
            args.push(string_from_chars(&m));
            args.push(String::from_str("-c:a"));
            args.push(String::from_str("aac"));
            args.push(String::from_str("-shortest"));
        },
        None => {},
    }
    let ghost after_audio = string_views(args@);
    assert(after_audio =~= after_map + audio_args(n as nat, match audio_path { Some(a) => Some(a@), None => None }));
    args.push(String::from_str("-c:v"));
    args.push(String::from_str("libx264"));
    args.push(String::from_str("-pix_fmt"));
    args.push(String::from_str("yuv420p"));
    args.push(String::from_str("-progress"));
    args.push(String::from_str("pipe:2"));
    args.push(String::from_str("-y"));
    args.push(String::from_str(output_path));
    assert(string_views(args@) =~= export_args(cs, os, output_path@, match audio_path { Some(a) => Some(a@), None => None }));
    args
}

/// The ffmpeg tools the editor runs.
#[derive(PartialEq, Eq, Structural, Clone, Copy, Debug)]
pub enum Tool {
    Ffmpeg,
    Ffprobe,
}

/// The command name of a tool.
pub open spec fn tool_name(t: Tool) -> Seq<char> {
    match t {
        Tool::Ffmpeg => "ffmpeg"@,
        Tool::Ffprobe => "ffprobe"@,
    }
}

/// Where a tool is looked for, in order.
pub enum ToolProbe {
    /// A file of this name in the directory of the running executable.
    BesideExe(String),
    /// A file in a subdirectory of the directory of the running executable.
    InSubdir(String, String),
    /// A command of this name that runs when looked up on the `PATH`.
    OnPath(String),
    /// A file at this fixed path.
    AtPath(String),
}

/// The places a tool is looked for, in order: next to the executable, in an
/// `ffmpeg` directory next to it, on the `PATH`, and in `C:\ffmpeg\bin`.
pub open spec fn tool_probe_list(t: Tool) -> Seq<(nat, Seq<char>, Seq<char>)> {
    seq![
        (0nat, tool_name(t) + ".exe"@, Seq::empty()),
        (1nat, "ffmpeg"@, tool_name(t) + ".exe"@),
        (2nat, tool_name(t), Seq::empty()),
        (3nat, "C:\\ffmpeg\\bin\\"@ + tool_name(t) + ".exe"@, Seq::empty()),
    ]
}

/// A probe as (kind, first string, second string).
pub open spec fn probe_view(p: ToolProbe) -> (nat, Seq<char>, Seq<char>) {
    match p {
        ToolProbe::BesideExe(f) => (0nat, f@, Seq::empty()),
        ToolProbe::InSubdir(d, f) => (1nat, d@, f@),
        ToolProbe::OnPath(c) => (2nat, c@, Seq::empty()),
        ToolProbe::AtPath(p) => (3nat, p@, Seq::empty()),
    }
}

fn tool_str(t: Tool) -> (s: &'static str)
    ensures
        s@ == tool_name(t),
{
    match t {
        Tool::Ffmpeg => "ffmpeg",
        Tool::Ffprobe => "ffprobe",
    }
}

fn concat_strs(a: &str, b: &str) -> (r: String)
    ensures
        r@ == a@ + b@,
{
    let mut out: Vec<char> = Vec::new();
    push_str(&mut out, a);
    push_str(&mut out, b);
    string_from_chars(&out)
}

/// The places where `tool` is looked for, in the order they are tried.
pub fn tool_probes(tool: Tool) -> (r: Vec<ToolProbe>)
    ensures
        r@.map_values(|p: ToolProbe| probe_view(p)) == tool_probe_list(tool),
{
    let name = tool_str(tool);
    let mut r: Vec<ToolProbe> = Vec::new();
    r.push(ToolProbe::BesideExe(concat_strs(name, ".exe")));
    r.push(ToolProbe::InSubdir(String::from_str("ffmpeg"), concat_strs(name, ".exe")));
    r.push(ToolProbe::OnPath(String::from_str(name)));
    let mut p: Vec<char> = Vec::new();
    push_str(&mut p, "C:\\ffmpeg\\bin\\");
    push_str(&mut p, name);
    push_str(&mut p, ".exe");
    r.push(ToolProbe::AtPath(string_from_chars(&p)));
    assert(r@.map_values(|p: ToolProbe| probe_view(p)) =~= tool_probe_list(tool));
    r
}

/// Why an export cannot start.
pub enum ExportError {
    /// The timeline holds no clip.
    EmptyTimeline,
    /// The tool was found in none of the places it is looked for.
    ToolNotFound(Tool),
}

/// The message of an export error.
pub open spec fn error_message(e: ExportError) -> Seq<char> {
    match e {
        ExportError::EmptyTimeline => "Cannot export an empty timeline"@,
        ExportError::ToolNotFound(t) => tool_name(t) + " not found. Place "@ + tool_name(t)
            + ".exe next to the Freetasia executable, or install ffmpeg and add it to your PATH. See https://ffmpeg.org/download.html"@,
    }
}

impl ExportError {
    /// The message shown for this error.
    pub fn message(&self) -> (m: String)
        ensures
            m@ == error_message(*self),
    {
        match self {
            ExportError::EmptyTimeline => String::from_str("Cannot export an empty timeline"),
            ExportError::ToolNotFound(t) => {
                let name = tool_str(*t);
                let mut out: Vec<char> = Vec::new();
                push_str(&mut out, name);
                push_str(&mut out, " not found. Place ");
                push_str(&mut out, name);
                push_str(&mut out, ".exe next to the Freetasia executable, or install ffmpeg and add it to your PATH. See https://ffmpeg.org/download.html");
                assert(out@ =~= error_message(*self));
                string_from_chars(&out)
            },
        }
    }
}

/// The path of the first place where the tool was found, in probe order.
pub open spec fn first_found(found: Seq<Option<String>>) -> Option<Seq<char>>
    decreases found.len(),
{
    if found.len() == 0 {
        None
    } else {
        match found[0] {
            Some(p) => Some(p@),
            None => first_found(found.drop_first()),
        }
    }
}

/// The tool at the first place it was found: `found[i]` holds the path that
/// the probe `i` of `tool_probes` resolved to, when it found the tool there.
pub fn find_tool(tool: Tool, found: &Vec<Option<String>>) -> (r: Result<String, ExportError>)
    ensures
        match first_found(found@) {
            Some(p) => r matches Ok(s) && s@ == p,
            None => r == Err::<String, ExportError>(ExportError::ToolNotFound(tool)),
        },
{
    let n = found.len();
    let mut i: usize = 0;
    assert(found@.skip(0) =~= found@);
    while i < n
        invariant
            n == found@.len(),
            i <= n,
            first_found(found@) == first_found(found@.skip(i as int)),
        decreases n - i,
    {
        proof {
            assert(found@.skip(i as int).drop_first() =~= found@.skip(i as int + 1));
        }
        match &found[i] {
            Some(p) => {
                return Ok(p.clone());
            },
            None => {},
        }
        i = i + 1;
    }
    Err(ExportError::ToolNotFound(tool))
}

/// Whether ffmpeg was found in one of the places it is looked for.
pub fn ffmpeg_available(found: &Vec<Option<String>>) -> (b: bool)
    ensures
        b == (first_found(found@) is Some),
{
    match find_tool(Tool::Ffmpeg, found) {
        Ok(_) => true,
        Err(_) => false,
    }
}

/// Prepare an export: the ffmpeg path and its arguments. Fails on an empty
/// timeline, then when ffmpeg was not found.
pub fn prepare_export(
    timeline: &Timeline,
    output_path: &str,
    ffmpeg: Result<String, ExportError>,
    audio_path: Option<String>,
) -> (r: Result<(String, Vec<String>), ExportError>)
    ensures
        timeline.clip_seq().len() == 0 ==> r == Err::<(String, Vec<String>), ExportError>(ExportError::EmptyTimeline),
        timeline.clip_seq().len() > 0 ==> match ffmpeg {
            Err(e) => r == Err::<(String, Vec<String>), ExportError>(e),
            Ok(p) => r matches Ok((q, args)) && q == p && string_views(args@) == export_args(
                timeline.clip_seq(),
                timeline.overlay_seq(),
                output_path@,
                match audio_path { Some(a) => Some(a@), None => None },
            ),
        },
{
    if timeline.is_empty() {
        return Err(ExportError::EmptyTimeline);
    }
    match ffmpeg {
        Err(e) => Err(e),
        Ok(p) => Ok((p, build_ffmpeg_args(timeline, output_path, audio_path))),
    }
}

/// Progress of a running export.
pub enum ExportProgress {
    /// Fraction done, in millionths (0 ..= 1_000_000).
    Progress(u32),
    /// Export finished successfully.
    Done,
    /// Export failed with an error message.
    Error(String),
}

/// The progress that an ffmpeg `-progress` line reports for a timeline of
/// `total` microseconds: `out_time_us=<n>` with `n` an `i64` at least zero,
/// as millionths of `total`, at most one million.
pub open spec fn progress_of_line(line: Seq<char>, total: u64) -> Option<u32> {
    let key = "out_time_us="@;
    if line.len() >= key.len() && line.take(key.len() as int) == key {
        match parse_i64(trimmed(line.skip(key.len() as int))) {
            Some(us) => if us >= 0 && total > 0 {
                let ppm = us * 1_000_000 / (total as int);
                Some((if ppm > 1_000_000 { 1_000_000 } else { ppm }) as u32)
            } else {
                None
            },
            None => None,
        }
    } else {
        None
    }
}

/// Reads one line of ffmpeg's `-progress` output: the fraction of the
/// timeline written so far, in millionths, when the line reports it.
pub fn progress_from_line(line: &str, total_duration: u64) -> (r: Option<u32>)
    ensures
        r == progress_of_line(line@, total_duration),
{
    let chars = str_chars(line);
    let key = str_chars("out_time_us=");
    let k = key.len();
    let n = chars.len();
    if n < k {
        return None;
    }
    let mut i: usize = 0;
    while i < k
        invariant
            k == key@.len(),
            n == chars@.len(),
            chars@ == line@,
            key@ == "out_time_us="@,
            k <= n,
            i <= k,
            forall|j: int| 0 <= j < i ==> chars@[j] == key@[j],
        decreases k - i,
    {
        if chars[i] != key[i] {
            assert(chars@.take(k as int)[i as int] != key@[i as int]);
            assert(chars@.take(k as int) != key@);
            assert(line@ == chars@);
            return None;
        }
        i = i + 1;
    }
    assert(chars@.take(k as int) =~= key@);
    let mut rest: Vec<char> = Vec::new();
    let mut j: usize = k;
    while j < n
        invariant
            n == chars@.len(),
            k <= j <= n,
            rest@ == chars@.subrange(k as int, j as int),
        decreases n - j,
    {
        rest.push(chars[j]);
        j = j + 1;
        assert(rest@ =~= chars@.subrange(k as int, j as int));
    }
    assert(rest@ =~= chars@.skip(k as int));
    let t = trim_chars(&rest);
    match parse_i64_chars(&t) {
        Some(us) => {
            if us >= 0 && total_duration > 0 {
                let ppm: u128 = (us as u128) * 1_000_000 / (total_duration as u128);
                if ppm > 1_000_000 {
                    Some(1_000_000)
                } else {
                    Some(ppm as u32)
                }
            } else {
                None
            }
        },
        None => None,
    }
}

} // verus!
