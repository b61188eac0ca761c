# Freetasia

A screen recorder and video editor: record the screen and microphone, lay
recordings out as clips on a timeline, trim, split and cut them, add text
callouts, play the result back, and export it with ffmpeg.

## Layout

- `src/` — the editing model, verified with Verus. Times are whole
  microseconds; positions in the frame are thousandths of its width or height.
  - `editor/clip.rs`, `text_overlay.rs`, `overlay.rs` — the items of a timeline.
  - `editor/timeline.rs` — adding, removing, splitting, sorting, ripple
    shifting and cutting clips, with the invariant every operation keeps
    (clip ends fit the time type, ids are unique and below the id counter).
  - `editor/project.rs` — a named timeline with its output settings.
  - `editor/export.rs` — the ffmpeg command line of an export, where the
    tools are looked for, and how ffmpeg's progress lines are read.
  - `editor/player.rs` — the pausable playback clock, the playback and
    scrub state machine, and the ffmpeg/ffprobe commands of a playback.
  - `editor/interact.rs` — what a press on the timeline grabs, where a
    dragged clip or overlay lands, trim heads, cuts, and the clock texts.
  - `recorder/` — the recording session's state machine and timing, the
    local date and time that name its files (read by `app/`, rendered
    through chrono), and the encoder command for captured frames.
  - `text.rs`, `clock.rs` — character helpers and monotonic clock readings.
- `app/` — the egui window, threads, child processes, audio devices and the
  project file.
- `tests/` — tests of the library.

## Playback speed

The clip inspector's speed control (0.25× to 50×), and the speed factor
that export, split and playback apply to a clip, have no field to act on:
a clip carries no speed. Clips therefore always play at normal speed. The
playback segments keep a speed (thousandths, `NORMAL_SPEED` for 1×), which
the decoder's frame rate and the audio follow, so a speed per clip can be
added without changing the player.
