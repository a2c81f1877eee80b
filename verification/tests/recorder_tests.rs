use klyppd::recorder::{Recorder, RecorderError, RecordingState};
use klyppd::settings::AppSettings;

fn settings() -> AppSettings {
    AppSettings::with_clips_directory("/home/u/Videos/Klyppd")
}

#[test]
fn new_recorder_is_idle() {
    let r = Recorder::new();
    assert_eq!(r.get_state(), RecordingState { replay_buffer_active: false, recording_active: false });
    assert!(r.running_processes().is_empty());
}

#[test]
fn replay_buffer_command_line() {
    let r = Recorder::new();
    let cmd = r.start_replay_buffer(&settings()).unwrap();
    assert_eq!(
        cmd,
        vec![
            "gpu-screen-recorder", "-w", "portal", "-f", "60", "-k", "h264", "-ac", "aac", "-a",
            "default_output", "-r", "120", "-c", "mp4", "-o", "/home/u/Videos/Klyppd",
        ]
    );
}

#[test]
fn empty_audio_source_is_left_out() {
    let mut s = settings();
    s.audio_source = String::new();
    s.fps = 30;
    let cmd = Recorder::new().start_recording(&s, "20260522_120000").unwrap();
    assert_eq!(
        cmd,
        vec![
            "gpu-screen-recorder", "-w", "portal", "-f", "30", "-k", "h264", "-ac", "aac", "-o",
            "/home/u/Videos/Klyppd/20260522_120000.mp4",
        ]
    );
}

#[test]
fn replay_buffer_lifecycle() {
    let mut r = Recorder::new();
    assert_eq!(r.save_replay(), Err(RecorderError::NoReplayBufferRunning));
    assert_eq!(r.stop_replay_buffer(), Err(RecorderError::NoReplayBufferRunning));
    r.replay_buffer_started(4242);
    assert!(r.get_state().replay_buffer_active);
    assert_eq!(r.start_replay_buffer(&settings()).unwrap_err(), RecorderError::ReplayBufferAlreadyRunning);
    assert_eq!(r.save_replay(), Ok(4242));
    assert_eq!(r.running_processes(), vec![4242]);
    assert_eq!(r.stop_replay_buffer(), Ok(4242));
    assert!(!r.get_state().replay_buffer_active);
    assert_eq!(r.stop_replay_buffer(), Err(RecorderError::NoReplayBufferRunning));
}

#[test]
fn recording_lifecycle_leaves_buffer_alone() {
    let mut r = Recorder::new();
    r.replay_buffer_started(1);
    assert_eq!(r.stop_recording(), Err(RecorderError::NotRecording));
    r.recording_started(2);
    assert_eq!(r.start_recording(&settings(), "x").unwrap_err(), RecorderError::AlreadyRecording);
    assert_eq!(r.get_state(), RecordingState { replay_buffer_active: true, recording_active: true });
    assert_eq!(r.running_processes(), vec![1, 2]);
    assert_eq!(r.stop_recording(), Ok(2));
    assert_eq!(r.get_state(), RecordingState { replay_buffer_active: true, recording_active: false });
}

#[test]
fn error_messages() {
    assert_eq!(RecorderError::ReplayBufferAlreadyRunning.message(), "replay buffer already running");
    assert_eq!(RecorderError::NoReplayBufferRunning.message(), "no replay buffer running");
    assert_eq!(RecorderError::AlreadyRecording.message(), "already recording");
    assert_eq!(RecorderError::NotRecording.message(), "not recording");
}
