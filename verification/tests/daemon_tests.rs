use sotto::daemon::{after_stop, text_to_paste, AfterStop, Command, Daemon, Trigger};

#[test]
fn toggle_starts_and_stops() {
    let mut d = Daemon::new();
    assert_eq!(d.on_trigger(Trigger::Toggle), Command::StartRecording);
    d.recording_started(true);
    assert!(d.recording);
    assert_eq!(d.on_trigger(Trigger::Toggle), Command::StopRecording);
    assert!(!d.recording);
}

#[test]
fn failed_start_leaves_daemon_idle() {
    let mut d = Daemon::new();
    assert_eq!(d.on_trigger(Trigger::Toggle), Command::StartRecording);
    d.recording_started(false);
    assert!(!d.recording);
    assert_eq!(d.on_trigger(Trigger::Toggle), Command::StartRecording);
}

#[test]
fn push_to_talk_records_while_held() {
    let mut d = Daemon::new();
    assert_eq!(d.on_trigger(Trigger::Released), Command::Ignore);
    assert_eq!(d.on_trigger(Trigger::Pressed), Command::StartRecording);
    d.recording_started(true);
    assert_eq!(d.on_trigger(Trigger::Pressed), Command::Ignore);
    assert!(d.recording);
    assert_eq!(d.on_trigger(Trigger::Released), Command::StopRecording);
    assert!(!d.recording);
}

#[test]
fn empty_recordings_are_not_transcribed() {
    assert_eq!(after_stop(true), AfterStop::HideIndicator);
    assert_eq!(after_stop(false), AfterStop::Transcribe);
}

#[test]
fn transcripts_are_punctuated_before_pasting() {
    assert_eq!(text_to_paste(""), None);
    assert_eq!(text_to_paste("hello comma world"), Some("Hello, world".to_string()));
}
