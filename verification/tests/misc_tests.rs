use sotto::indicator::{elapsed_label, is_visible, label_on_show, tick_label, uses_transcribing_style, IndicatorState};
use sotto::service::systemd_unit;
use sotto::transcription::{transcript_text, trim, whisper_language};

#[test]
fn elapsed_labels() {
    assert_eq!(elapsed_label(0), "0:00");
    assert_eq!(elapsed_label(65), "1:05");
    assert_eq!(elapsed_label(600), "10:00");
    assert_eq!(elapsed_label(3599), "59:59");
    assert_eq!(elapsed_label(7261), "121:01");
}

#[test]
fn indicator_states() {
    assert_eq!(label_on_show(IndicatorState::Recording), Some("0:00"));
    assert_eq!(label_on_show(IndicatorState::Transcribing), Some("..."));
    assert_eq!(label_on_show(IndicatorState::Hidden), None);
    assert!(!is_visible(IndicatorState::Hidden));
    assert!(is_visible(IndicatorState::Recording));
    assert!(uses_transcribing_style(IndicatorState::Transcribing));
    assert!(!uses_transcribing_style(IndicatorState::Recording));
    assert_eq!(tick_label(IndicatorState::Recording, Some(12)), Some("0:12".to_string()));
    assert_eq!(tick_label(IndicatorState::Recording, None), None);
    assert_eq!(tick_label(IndicatorState::Transcribing, Some(12)), None);
}

#[test]
fn unit_file() {
    let unit = systemd_unit("/usr/bin/sotto");
    assert_eq!(
        unit,
        "[Unit]\nDescription=Sotto speech-to-text daemon\nAfter=graphical-session.target pipewire.service\nWants=pipewire.service\nPartOf=graphical-session.target\n\n[Service]\nType=simple\nExecStart=/usr/bin/sotto daemon\nRestart=on-failure\nRestartSec=5\n\n[Install]\nWantedBy=graphical-session.target\n"
    );
}

#[test]
fn whisper_languages() {
    assert_eq!(whisper_language("auto"), None);
    assert_eq!(whisper_language("de"), Some("de"));
}

#[test]
fn transcripts_are_joined_and_trimmed() {
    let segs = vec![" Hello".to_string(), " world. ".to_string()];
    assert_eq!(transcript_text(&segs), "Hello world.");
    assert_eq!(transcript_text(&vec![]), "");
    assert_eq!(trim("\u{3000} hi there \t\n"), "hi there");
    assert_eq!(trim("   "), "");
}
