//! Video effect overlays (text callouts and blurred regions).
use vstd::prelude::*;
use crate::editor::text_overlay::{in_range, range_len};
use crate::text::{push_chars, str_chars, string_from_chars};

verus! {

/// The kind-specific data for each overlay effect.
pub enum OverlayKind {
    Text {
        text: String,
        /// Font size in pixels (at 1080p).
        font_size: u32,
        /// Text colour as [R, G, B, A].
        color: [u8; 4],
    },
    Blur {
        /// Width in thousandths of the video width.
        width: u32,
        /// Height in thousandths of the video height.
        height: u32,
    },
}

/// A video effect overlay that appears at a specific time range and position.
pub struct Overlay {
    /// Unique identifier (shared id-space with clips).
    pub id: u64,
    /// Start time on the timeline (microseconds).
    pub start: u64,
    /// End time on the timeline (microseconds).
    pub end: u64,
    /// Horizontal position in thousandths of the width: the centre of a text,
    /// the left edge of a blur.
    pub x: u32,
    /// Vertical position in thousandths of the height: the centre of a text,
    /// the top edge of a blur.
    pub y: u32,
    /// The effect-specific data.
    pub kind: OverlayKind,
}

/// Number of bytes of a character in UTF-8.
pub open spec fn utf8_width(c: char) -> nat {
    if (c as u32) < 0x80 { 1 }
    else if (c as u32) < 0x800 { 2 }
    else if (c as u32) < 0x10000 { 3 }
    else { 4 }
}

/// Number of bytes of a character sequence in UTF-8.
pub open spec fn utf8_len(s: Seq<char>) -> nat
    decreases s.len(),
{
    if s.len() == 0 { 0 } else { utf8_len(s.drop_last()) + utf8_width(s.last()) }
}

/// Byte offset 19 starts a character of `s`.
pub open spec fn boundary_at_19(s: Seq<char>) -> bool {
    exists|k: int| 0 <= k <= s.len() && #[trigger] utf8_len(s.take(k)) == 19
}

/// The characters of `s` that precede byte offset 19.
pub open spec fn head_19(s: Seq<char>) -> Seq<char> {
    s.take(choose|k: int| 0 <= k <= s.len() && #[trigger] utf8_len(s.take(k)) == 19)
}

/// The timeline label of a text: the text itself up to 20 bytes, else its
/// first 19 bytes followed by an ellipsis.
pub open spec fn text_label(s: Seq<char>) -> Seq<char> {
    if utf8_len(s) > 20 { head_19(s) + seq!['…'] } else { s }
}

fn char_width(c: char) -> (w: usize)
    ensures
        w == utf8_width(c),
{
    let u = c as u32;
    if u < 0x80 { 1 } else if u < 0x800 { 2 } else if u < 0x10000 { 3 } else { 4 }
}

proof fn lemma_utf8_len_take_step(s: Seq<char>, k: int)
    requires
        0 <= k < s.len(),
    ensures
        utf8_len(s.take(k + 1)) == utf8_len(s.take(k)) + utf8_width(s[k]),
{
    assert(s.take(k + 1).drop_last() =~= s.take(k));
}

proof fn lemma_utf8_len_mono(s: Seq<char>, j: int, k: int)
    requires
        0 <= j <= k <= s.len(),
    ensures
        utf8_len(s.take(j)) + (k - j) <= utf8_len(s.take(k)),
    decreases k - j,
{
    if j < k {
        lemma_utf8_len_mono(s, j, k - 1);
        lemma_utf8_len_take_step(s, k - 1);
    }
}

/// The timeline label of a text: the text itself up to 20 bytes, else its
/// first 19 bytes and an ellipsis. Byte 19 must then start a character.
pub fn short_label(text: &str) -> (l: String)
    requires
        utf8_len(text@) > 20 ==> boundary_at_19(text@),
    ensures
        l@ == text_label(text@),
{
    let chars = str_chars(text);
    let n = chars.len();
    let mut i: usize = 0;
    let mut bytes: usize = 0;
    let mut cut: usize = 0;
    let mut found_cut = false;
    while i < n && bytes <= 20
        invariant
            n == chars@.len(),
            i <= n,
            bytes == utf8_len(chars@.take(i as int)),
            bytes <= 24,
            found_cut ==> cut <= i && utf8_len(chars@.take(cut as int)) == 19,
            !found_cut ==> forall|k: int| 0 <= k <= i ==> #[trigger] utf8_len(chars@.take(k)) != 19,
        decreases n - i,
    {
        proof { lemma_utf8_len_take_step(chars@, i as int); }
        bytes = bytes + char_width(chars[i]);
        i = i + 1;
        if bytes == 19 && !found_cut {
            found_cut = true;
            cut = i;
        }
    }
    proof {
        lemma_utf8_len_mono(chars@, i as int, n as int);
        assert(chars@.take(n as int) =~= chars@);
        assert(text@ == chars@);
    }
    if bytes > 20 {
        proof {
            // The cut point is the unique prefix of 19 bytes.
            let k = choose|k: int| 0 <= k <= chars@.len() && #[trigger] utf8_len(chars@.take(k)) == 19;
            if k > i {
                lemma_utf8_len_mono(chars@, i as int, k);
            }
            assert(found_cut);
            if k < cut {
                lemma_utf8_len_mono(chars@, k, cut as int);
            } else if k > cut {
                lemma_utf8_len_mono(chars@, cut as int, k);
            }
            assert(k == cut);
        }
        let mut out: Vec<char> = Vec::new();
        let mut j: usize = 0;
        while j < cut
            invariant
                j <= cut <= n,
                n == chars@.len(),
                out@ == chars@.take(j as int),
            decreases cut - j,
        {
            out.push(chars[j]);
            j = j + 1;
            assert(out@ =~= chars@.take(j as int));
        }
        out.push('…');
        string_from_chars(&out)
    } else {
        String::from_str(text)
    }
}

impl Overlay {
    /// Create a new text overlay: a white 48 px callout centred in the frame.
    pub fn new_text(id: u64, text: String, start: u64, end: u64) -> (o: Self)
        ensures
            o.id == id,
            o.start == start,
            o.end == end,
            o.x == 500,
            o.y == 500,
            o.kind matches OverlayKind::Text { text: t, font_size, color }
                && t == text && font_size == 48 && color@ == seq![255u8, 255u8, 255u8, 255u8],
    {
        let o = Overlay {
            id,
            start,
            end,
            x: 500,
            y: 500,
            kind: OverlayKind::Text { text, font_size: 48, color: [255, 255, 255, 255] },
        };
        proof {
            if let OverlayKind::Text { color, .. } = o.kind {
                assert(color@ =~= seq![255u8, 255u8, 255u8, 255u8]);
            }
        }
        o
    }

    /// Create a new blur overlay: a 0.3 × 0.3 region at (0.35, 0.35).
    pub fn new_blur(id: u64, start: u64, end: u64) -> (o: Self)
        ensures
            o.id == id,
            o.start == start,
            o.end == end,
            o.x == 350,
            o.y == 350,
            o.kind == (OverlayKind::Blur { width: 300, height: 300 }),
    {
        Overlay { id, start, end, x: 350, y: 350, kind: OverlayKind::Blur { width: 300, height: 300 } }
    }

    /// Duration of the overlay.
    pub fn duration(&self) -> (d: u64)
        ensures
            d == range_len(self.start, self.end),
    {
        if self.end > self.start { self.end - self.start } else { 0 }
    }

    /// Is the given timeline position inside this overlay's time range?
    pub fn visible_at(&self, t: u64) -> (b: bool)
        ensures
            b == in_range(self.start, self.end, t),
    {
        t >= self.start && t < self.end
    }

    pub fn is_text(&self) -> (b: bool)
        ensures
            b == (self.kind is Text),
    {
        match self.kind {
            OverlayKind::Text { .. } => true,
            OverlayKind::Blur { .. } => false,
        }
    }

    pub fn is_blur(&self) -> (b: bool)
        ensures
            b == (self.kind is Blur),
    {
        match self.kind {
            OverlayKind::Text { .. } => false,
            OverlayKind::Blur { .. } => true,
        }
    }

    /// Short display label for the timeline track. A text longer than 20
    /// bytes is cut at byte 19, which must start a character.
    pub fn label(&self) -> (l: String)
        requires
            self.kind matches OverlayKind::Text { text, .. }
                ==> (utf8_len(text@) > 20 ==> boundary_at_19(text@)),
        ensures
            match self.kind {
                OverlayKind::Text { text, .. } => l@ == text_label(text@),
                OverlayKind::Blur { .. } => l@ == "Blur"@,
            },
    {
        match &self.kind {
            OverlayKind::Text { text, .. } => short_label(text.as_str()),
            OverlayKind::Blur { .. } => String::from_str("Blur"),
        }
    }
}

/// A text label takes at most 22 bytes: a text over 20 bytes becomes its
/// first 19 bytes and a three-byte ellipsis, which the label ends with.
pub proof fn lemma_label_fits(s: Seq<char>)
    requires
        utf8_len(s) > 20 ==> boundary_at_19(s),
    ensures
        utf8_len(text_label(s)) <= 22,
        utf8_len(s) > 20 ==> text_label(s).last() == '…',
        utf8_len(s) <= 20 ==> text_label(s) == s,
{
    if utf8_len(s) > 20 {
        let k = choose|k: int| 0 <= k <= s.len() && #[trigger] utf8_len(s.take(k)) == 19;
        let h = head_19(s);
        assert(h == s.take(k));
        let l = h + seq!['…'];
        assert(l.drop_last() =~= h);
        assert(utf8_width('…') == 3);
    }
}

} // verus!
