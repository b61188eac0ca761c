//! The project: a named timeline with its output settings.
use vstd::prelude::*;
use crate::editor::clip::ClipView;
use crate::editor::text_overlay::TextOverlayView;
use crate::editor::timeline::Timeline;
use crate::text::{push_str, str_chars, string_from_chars};

verus! {

/// Top-level project file.
pub struct Project {
    pub name: String,
    pub timeline: Timeline,
    /// Desired output frame rate for export.
    pub output_fps: u32,
    /// Desired output resolution (width, height).
    pub output_resolution: (u32, u32),
}

/// `s` with every space replaced by an underscore.
pub open spec fn underscored(s: Seq<char>) -> Seq<char> {
    s.map_values(|c: char| if c == ' ' { '_' } else { c })
}

impl Default for Project {
    fn default() -> (p: Self)
        ensures
            p.name@ == "Untitled Project"@,
            p.timeline.clip_seq() == Seq::<ClipView>::empty(),
            p.timeline.overlay_seq() == Seq::<TextOverlayView>::empty(),
            p.timeline.counter() == 0,
            p.timeline.head() == 0,
            p.timeline.wf(),
            p.output_fps == 30,
            p.output_resolution == (1920u32, 1080u32),
    {
        Project {
            name: String::from_str("Untitled Project"),
            timeline: Timeline::new(),
            output_fps: 30,
            output_resolution: (1920, 1080),
        }
    }
}

impl Project {
    /// A project with the given name and the default settings.
    pub fn new(name: String) -> (p: Self)
        ensures
            p.name == name,
            p.timeline.clip_seq() == Seq::<ClipView>::empty(),
            p.timeline.overlay_seq() == Seq::<TextOverlayView>::empty(),
            p.timeline.counter() == 0,
            p.timeline.head() == 0,
            p.timeline.wf(),
            p.output_fps == 30,
            p.output_resolution == (1920u32, 1080u32),
    {
        Project { name, timeline: Timeline::new(), output_fps: 30, output_resolution: (1920, 1080) }
    }

    /// Suggested output file name derived from the project name: spaces
    /// become underscores, and ".mp4" is appended.
    pub fn default_output_name(&self) -> (r: String)
        ensures
            r@ == underscored(self.name@) + ".mp4"@,
    {
        let chars = str_chars(self.name.as_str());
        let n = chars.len();
        let ghost f = |c: char| if c == ' ' { '_' } else { c };
        let mut out: Vec<char> = Vec::new();
        let mut i: usize = 0;
        while i < n
            invariant
                n == chars@.len(),
                i <= n,
                f == (|c: char| if c == ' ' { '_' } else { c }),
                out@ == chars@.take(i as int).map_values(f),
            decreases n - i,
        {
            let c = chars[i];
            out.push(if c == ' ' { '_' } else { c });
            assert(out@ =~= chars@.take(i as int + 1).map_values(f));
            i = i + 1;
        }
        assert(chars@.take(n as int) =~= chars@);
        push_str(&mut out, ".mp4");
        string_from_chars(&out)
    }
}

} // verus!
