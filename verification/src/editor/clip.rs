//! A media segment placed on the timeline.
use vstd::prelude::*;

verus! {

/// A single media segment placed on the timeline. Times are microseconds.
pub struct Clip {
    /// Unique identifier (incrementing integer).
    pub id: u64,
    /// Path to the source media file (video or audio).
    pub source_path: String,
    /// Start of the used portion within the source file.
    pub trim_start: u64,
    /// End of the used portion within the source file.
    pub trim_end: u64,
    /// Position of this clip on the project timeline.
    pub timeline_start: u64,
    /// Human-readable label shown in the timeline.
    pub label: String,
}

/// The mathematical value of a clip: its fields, with strings as character
/// sequences.
pub struct ClipView {
    pub id: u64,
    pub source_path: Seq<char>,
    pub trim_start: u64,
    pub trim_end: u64,
    pub timeline_start: u64,
    pub label: Seq<char>,
}

impl ClipView {
    /// Length of the used portion: `trim_end - trim_start`, never negative.
    pub open spec fn span(self) -> nat {
        if self.trim_end > self.trim_start {
            (self.trim_end - self.trim_start) as nat
        } else {
            0
        }
    }

    /// Where the clip ends on the timeline.
    pub open spec fn end_pos(self) -> nat {
        (self.timeline_start + self.span()) as nat
    }

    /// The clip's end fits the time type.
    pub open spec fn fits(self) -> bool {
        self.end_pos() <= u64::MAX
    }
}

impl View for Clip {
    type V = ClipView;

    open spec fn view(&self) -> ClipView {
        ClipView {
            id: self.id,
            source_path: self.source_path@,
            trim_start: self.trim_start,
            trim_end: self.trim_end,
            timeline_start: self.timeline_start,
            label: self.label@,
        }
    }
}

impl Clip {
    pub open spec fn span(self) -> nat {
        self@.span()
    }

    pub open spec fn end_pos(self) -> nat {
        self@.end_pos()
    }

    pub open spec fn fits(self) -> bool {
        self@.fits()
    }

    /// Create a new clip that uses the full duration of a source file.
    pub fn new(id: u64, source_path: String, duration: u64, label: String) -> (c: Self)
        ensures
            c.id == id,
            c.source_path == source_path,
            c.trim_start == 0,
            c.trim_end == duration,
            c.timeline_start == 0,
            c.label == label,
    {
        Clip { id, source_path, trim_start: 0, trim_end: duration, timeline_start: 0, label }
    }

    /// Duration of the clip after trimming.
    pub fn duration(&self) -> (d: u64)
        ensures
            d == self.span(),
    {
        if self.trim_end > self.trim_start {
            self.trim_end - self.trim_start
        } else {
            0
        }
    }

    /// End position of this clip on the project timeline.
    pub fn timeline_end(&self) -> (e: u64)
        requires
            self.fits(),
        ensures
            e == self.end_pos(),
    {
        self.timeline_start + self.duration()
    }
}

impl Clone for Clip {
    fn clone(&self) -> (c: Self)
        ensures
            c == *self,
    {
        Clip {
            id: self.id,
            source_path: self.source_path.clone(),
            trim_start: self.trim_start,
            trim_end: self.trim_end,
            timeline_start: self.timeline_start,
            label: self.label.clone(),
        }
    }
}

} // verus!
