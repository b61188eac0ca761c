//! Freetasia: the editing model of a screen recorder and video editor.
//!
//! Times are whole microseconds (`u64`), fractions of the frame are
//! thousandths (`u32`, 1000 = the full width or height).
pub mod text;
pub mod clock;
pub mod editor;
pub mod recorder;
