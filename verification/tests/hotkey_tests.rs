use sotto::hotkey::{is_event_node, parse_key, remove_positions, HotkeyEvent, KeyTracker, KeyboardSearch};

#[test]
fn parse_key_accepts_listed_keys() {
    assert_eq!(parse_key("INSERT"), Ok(110));
    assert_eq!(parse_key("SCROLLLOCK"), Ok(70));
    assert_eq!(parse_key("PAUSE"), Ok(119));
    assert_eq!(parse_key("F13"), Ok(183));
    assert_eq!(parse_key("F24"), Ok(194));
    assert_eq!(parse_key("RIGHTALT"), Ok(100));
}

#[test]
fn parse_key_accepts_every_listed_function_key() {
    for (i, name) in ["F13", "F14", "F15", "F16", "F17", "F18", "F19", "F20", "F21", "F22", "F23", "F24"]
        .iter()
        .enumerate()
    {
        assert_eq!(parse_key(name), Ok(183 + i as u16));
    }
}

#[test]
fn parse_key_accepts_any_evdev_key_name() {
    assert_eq!(parse_key("LEFTMETA"), Ok(125));
    assert_eq!(parse_key("leftmeta"), Ok(125));
    assert_eq!(parse_key("KEY_A"), Ok(30));
    assert_eq!(parse_key("menu"), Ok(139));
    assert_eq!(parse_key("video-next"), Ok(241));
    assert_eq!(parse_key("video next"), Ok(241));
    assert_eq!(parse_key("btn_left"), Err("Unknown key: btn_left. Try: SCROLLLOCK, PAUSE, F13-F24".to_string()));
}

#[test]
fn parse_key_normalizes_names() {
    assert_eq!(parse_key("f13"), Ok(183));
    assert_eq!(parse_key("key_pause"), Ok(119));
    assert_eq!(parse_key("KEY_F1"), Ok(59));
    assert_eq!(parse_key("page-up"), Err("Unknown key: page-up. Try: SCROLLLOCK, PAUSE, F13-F24".to_string()));
    assert_eq!(parse_key("pageup"), Ok(104));
    assert_eq!(parse_key("ralt"), Ok(100));
    assert_eq!(parse_key("rctrl"), Ok(97));
    assert_eq!(parse_key("backtick"), Ok(41));
    assert_eq!(parse_key("grave"), Ok(41));
}

#[test]
fn parse_key_rejects_unknown_names() {
    assert_eq!(
        parse_key("bogus"),
        Err("Unknown key: bogus. Try: SCROLLLOCK, PAUSE, F13-F24".to_string())
    );
    assert_eq!(
        parse_key(""),
        Err("Unknown key: . Try: SCROLLLOCK, PAUSE, F13-F24".to_string())
    );
    assert_eq!(
        parse_key("right alt"),
        Err("Unknown key: right alt. Try: SCROLLLOCK, PAUSE, F13-F24".to_string())
    );
}

#[test]
fn tracker_reports_press_then_release() {
    let mut t = KeyTracker::new();
    assert_eq!(t.on_key_value(1), Some(HotkeyEvent::Pressed));
    assert_eq!(t.on_key_value(2), None);
    assert_eq!(t.on_key_value(1), None);
    assert_eq!(t.on_key_value(0), Some(HotkeyEvent::Released));
    assert_eq!(t.on_key_value(0), None);
    assert_eq!(t.on_key_value(1), Some(HotkeyEvent::Pressed));
}

#[test]
fn tracker_ignores_other_keys() {
    let mut t = KeyTracker::new();
    assert_eq!(t.on_event(30, 110, 1), None);
    assert!(!t.pressed);
    assert_eq!(t.on_event(110, 110, 1), Some(HotkeyEvent::Pressed));
    assert_eq!(t.on_event(30, 110, 0), None);
    assert!(t.pressed);
    assert_eq!(t.on_event(110, 110, 0), Some(HotkeyEvent::Released));
}

#[test]
fn tracker_events_alternate() {
    let mut t = KeyTracker::new();
    let mut events = Vec::new();
    for v in [0, 1, 1, 2, 0, 0, 2, 1, 0, 1] {
        if let Some(e) = t.on_key_value(v) {
            events.push(e);
        }
    }
    assert_eq!(
        events,
        vec![
            HotkeyEvent::Pressed,
            HotkeyEvent::Released,
            HotkeyEvent::Pressed,
            HotkeyEvent::Released,
            HotkeyEvent::Pressed
        ]
    );
}

#[test]
fn keyboard_search_gives_up_after_ten_retries() {
    let mut s = KeyboardSearch::new();
    for _ in 0..10 {
        assert!(!s.no_keyboards());
    }
    assert!(s.no_keyboards());
    assert_eq!(s.retries, 11);
}

#[test]
fn event_nodes() {
    assert!(is_event_node("event3"));
    assert!(is_event_node("event"));
    assert!(!is_event_node("mouse0"));
    assert!(!is_event_node("even"));
}

#[test]
fn stale_devices_are_removed() {
    let mut v = vec![10, 20, 30, 40, 50];
    remove_positions(&mut v, &vec![1, 3]);
    assert_eq!(v, vec![10, 30, 50]);
    let mut w = vec!["a", "b"];
    remove_positions(&mut w, &vec![0, 1]);
    assert!(w.is_empty());
    let mut x = vec![1, 2, 3];
    remove_positions(&mut x, &vec![]);
    assert_eq!(x, vec![1, 2, 3]);
}
