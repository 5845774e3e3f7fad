use sotto::settings::{
    custom_hotkey, daemon_language, default_settings, device_for_index, device_index, hotkey_for_index,
    hotkey_index, language_at, language_index, languages, mode_for_index, mode_index, requested_model,
    settings_entries, settings_from_stored, uses_push_to_talk, DeviceChoice, Settings,
};

fn s(v: &str) -> Option<String> {
    Some(v.to_string())
}

#[test]
fn defaults() {
    let d = default_settings();
    assert_eq!(d.model, "ggml-base.en.bin");
    assert_eq!(d.device, None);
    assert_eq!(d.language, "en");
    assert_eq!(d.mode, "signal");
    assert_eq!(d.hotkey, "INSERT");
}

#[test]
fn stored_values_override_defaults() {
    assert_eq!(requested_model(None), "ggml-base.en.bin");
    assert_eq!(requested_model(s("ggml-small.bin")), "ggml-small.bin");
    let st = settings_from_stored(s("ggml-small.bin"), true, s("mic"), s("de"), s("evdev"), s("F13"));
    assert_eq!(st.model, "ggml-small.bin");
    assert_eq!(st.device, s("mic"));
    assert_eq!(st.language, "de");
    assert_eq!(st.mode, "evdev");
    assert_eq!(st.hotkey, "F13");
}

#[test]
fn missing_model_falls_back_to_default() {
    let st = settings_from_stored(s("ggml-large-v3.bin"), false, None, None, None, None);
    assert_eq!(st.model, "ggml-base.en.bin");
    assert_eq!(st.language, "en");
    assert_eq!(st.mode, "signal");
    assert_eq!(st.hotkey, "INSERT");
}

#[test]
fn entries_leave_out_default_device() {
    let d = default_settings();
    let es = settings_entries(&d);
    let keys: Vec<&str> = es.iter().map(|e| e.0).collect();
    assert_eq!(keys, vec!["model", "language", "mode", "hotkey"]);
    let st = Settings { device: s("mic"), ..default_settings() };
    let es = settings_entries(&st);
    assert_eq!(es[1], ("device", "mic".to_string()));
    assert_eq!(es.len(), 5);
}

#[test]
fn english_models_force_english() {
    let mut st = default_settings();
    st.language = "de".to_string();
    assert_eq!(daemon_language(&st), "en");
    st.model = "ggml-base.bin".to_string();
    assert_eq!(daemon_language(&st), "de");
}

#[test]
fn modes() {
    assert!(uses_push_to_talk("evdev"));
    assert!(!uses_push_to_talk("signal"));
    assert_eq!(mode_index("evdev"), 1);
    assert_eq!(mode_index("other"), 0);
    assert_eq!(mode_for_index(1), "evdev");
    assert_eq!(mode_for_index(0), "signal");
}

#[test]
fn language_choices() {
    assert_eq!(languages().len(), 13);
    assert_eq!(language_index("auto"), 0);
    assert_eq!(language_index("en"), 2);
    assert_eq!(language_index("zh"), 12);
    assert_eq!(language_index("xx"), 2);
    assert_eq!(language_at(1), Some("de"));
    assert_eq!(language_at(13), None);
}

#[test]
fn hotkey_choices() {
    assert_eq!(hotkey_index("INSERT"), 0);
    assert_eq!(hotkey_index("f14"), 4);
    assert_eq!(hotkey_index("rightalt"), 7);
    assert_eq!(hotkey_index("F20"), 8);
    assert_eq!(hotkey_for_index(2), Some("PAUSE"));
    assert_eq!(hotkey_for_index(8), None);
    assert_eq!(custom_hotkey("f20"), s("F20"));
    assert_eq!(custom_hotkey(""), None);
}

#[test]
fn device_choices() {
    let names = vec!["mic".to_string(), "usb".to_string()];
    assert_eq!(device_index(&None, &names), 0);
    assert_eq!(device_index(&s("usb"), &names), 2);
    assert_eq!(device_index(&s("gone"), &names), 0);
    assert_eq!(device_for_index(0, 2), DeviceChoice::Default);
    assert_eq!(device_for_index(2, 2), DeviceChoice::Device(1));
    assert_eq!(device_for_index(3, 2), DeviceChoice::Unchanged);
}
