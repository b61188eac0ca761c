//! Recording: the state of a session, its timing, and the encoder command.
use vstd::prelude::*;

pub mod local_time;
pub mod manager;
pub mod screen;

verus! {

/// Current recording state.
#[derive(Debug, Clone, Copy, PartialEq, Eq, Structural)]
pub enum RecordingState {
    /// Nothing is recording.
    Idle,
    /// Actively capturing screen and/or audio.
    Recording,
    /// Capture is temporarily suspended.
    Paused,
}

impl Default for RecordingState {
    fn default() -> (s: Self)
        ensures
            s == RecordingState::Idle,
    {
        RecordingState::Idle
    }
}

/// The name shown for a state.
pub open spec fn state_name(s: RecordingState) -> Seq<char> {
    match s {
        RecordingState::Idle => "Idle"@,
        RecordingState::Recording => "Recording"@,
        RecordingState::Paused => "Paused"@,
    }
}

impl RecordingState {
    /// The name shown for the state: "Idle", "Recording" or "Paused".
    pub fn to_string(&self) -> (s: String)
        ensures
            s@ == state_name(*self),
    {
        match self {
            RecordingState::Idle => String::from_str("Idle"),
            RecordingState::Recording => String::from_str("Recording"),
            RecordingState::Paused => String::from_str("Paused"),
        }
    }
}

} // verus!
