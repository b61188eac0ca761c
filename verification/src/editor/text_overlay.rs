//! A text callout shown over the video for a time range.
use vstd::prelude::*;

verus! {

/// A text callout that appears on the video at a specific time range and
/// position. Times are microseconds; positions are thousandths of the frame.
pub struct TextOverlay {
    /// Unique identifier.
    pub id: u64,
    /// The text content to display.
    pub text: String,
    /// Start time on the timeline.
    pub start: u64,
    /// End time on the timeline.
    pub end: u64,
    /// Horizontal centre in thousandths of the video width (0 = left, 1000 = right).
    pub x: u32,
    /// Vertical centre in thousandths of the video height (0 = top, 1000 = bottom).
    pub y: u32,
    /// Font size in pixels (at 1080p).
    pub font_size: u32,
    /// Text colour as [R, G, B, A].
    pub color: [u8; 4],
}

/// Whether a time lies in the half-open range `[start, end)`.
pub open spec fn in_range(start: u64, end: u64, t: u64) -> bool {
    start <= t && t < end
}

/// `end - start`, never negative.
pub open spec fn range_len(start: u64, end: u64) -> nat {
    if end > start { (end - start) as nat } else { 0 }
}

/// The mathematical value of a text overlay: its fields, with the text as a
/// character sequence.
pub struct TextOverlayView {
    pub id: u64,
    pub text: Seq<char>,
    pub start: u64,
    pub end: u64,
    pub x: u32,
    pub y: u32,
    pub font_size: u32,
    pub color: [u8; 4],
}

impl TextOverlayView {
    /// Whether the overlay is shown at time `t`.
    pub open spec fn shown_at(self, t: u64) -> bool {
        in_range(self.start, self.end, t)
    }
}

impl View for TextOverlay {
    type V = TextOverlayView;

    open spec fn view(&self) -> TextOverlayView {
        TextOverlayView {
            id: self.id,
            text: self.text@,
            start: self.start,
            end: self.end,
            x: self.x,
            y: self.y,
            font_size: self.font_size,
            color: self.color,
        }
    }
}

impl TextOverlay {
    /// Whether the overlay is shown at time `t`.
    pub open spec fn shown_at(self, t: u64) -> bool {
        in_range(self.start, self.end, t)
    }

    /// A white 48 px callout centred in the frame.
    pub fn new(id: u64, text: String, start: u64, end: u64) -> (o: Self)
        ensures
            o.id == id,
            o.text == text,
            o.start == start,
            o.end == end,
            o.x == 500,
            o.y == 500,
            o.font_size == 48,
            o.color@ == seq![255u8, 255u8, 255u8, 255u8],
    {
        let o = TextOverlay { id, text, start, end, x: 500, y: 500, font_size: 48, color: [255, 255, 255, 255] };
        assert(o.color@ =~= seq![255u8, 255u8, 255u8, 255u8]);
        o
    }

    /// Duration of the overlay.
    pub fn duration(&self) -> (d: u64)
        ensures
            d == range_len(self.start, self.end),
    {
        if self.end > self.start { self.end - self.start } else { 0 }
    }

    /// Is the given timeline position inside this overlay's time range?
    pub fn visible_at(&self, t: u64) -> (b: bool)
        ensures
            b == self.shown_at(t),
    {
        t >= self.start && t < self.end
    }
}

impl Clone for TextOverlay {
    fn clone(&self) -> (o: Self)
        ensures
            o == *self,
    {
        TextOverlay {
            id: self.id,
            text: self.text.clone(),
            start: self.start,
            end: self.end,
            x: self.x,
            y: self.y,
            font_size: self.font_size,
            color: self.color,
        }
    }
}

} // verus!
