//! The editing model: clips, overlays, the timeline and the project, and
//! what an export or a playback is computed from.
pub mod clip;
pub mod text_overlay;
pub mod overlay;
pub mod timeline;
pub mod project;
pub mod export;
pub mod player;
pub mod interact;
