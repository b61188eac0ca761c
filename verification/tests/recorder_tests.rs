use freetasia::recorder::manager::RecorderManager;
use freetasia::recorder::RecordingState;

#[test]
fn recording_state_display() {
    assert_eq!(RecordingState::Idle.to_string(), "Idle");
    assert_eq!(RecordingState::Recording.to_string(), "Recording");
    assert_eq!(RecordingState::Paused.to_string(), "Paused");
}

#[test]
fn recording_state_default_is_idle() {
    assert_eq!(RecordingState::default(), RecordingState::Idle);
}

/// RecorderManager starts in the Idle state, elapsed time is zero and no
/// session is under way.
#[test]
fn manager_initial_state() {
    let mgr = RecorderManager::new("/tmp/freetasia".to_string());
    assert_eq!(mgr.state(), RecordingState::Idle);
    assert_eq!(mgr.elapsed() / 1_000_000, 0);
    assert!(mgr.current_video_path().is_none());
}

/// Stopping without a recording returns None.
#[test]
fn manager_stop_when_idle_returns_none() {
    let mut mgr = RecorderManager::new("/tmp/freetasia".to_string());
    assert!(mgr.stop_recording().is_none());
}

/// Pausing / resuming when idle is a no-op (does not panic).
#[test]
fn manager_pause_resume_when_idle() {
    let mut mgr = RecorderManager::new("/tmp/freetasia".to_string());
    mgr.pause_recording();
    assert_eq!(mgr.state(), RecordingState::Idle);
    mgr.resume_recording();
    assert_eq!(mgr.state(), RecordingState::Idle);
}
