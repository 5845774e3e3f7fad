use sotto::devices::{parse_sources, split_lines};

#[test]
fn lines_split_like_str_lines() {
    let lines = split_lines("a\r\nb\n\nc\r");
    assert_eq!(lines, vec![vec!['a'], vec!['b'], vec![], vec!['c', '\r']]);
    assert!(split_lines("").is_empty());
    assert_eq!(split_lines("x\n"), vec![vec!['x']]);
    assert_eq!(split_lines("\n"), vec![Vec::<char>::new()]);
}

#[test]
fn pactl_sources_without_monitors() {
    let text = "Source #1\n\tState: SUSPENDED\n\tName: alsa_output.pci.analog-stereo.monitor\n\tDescription: Monitor of Built-in Audio\n\nSource #2\n\tName: alsa_input.pci.analog-stereo\n\tDescription: Built-in Audio Analog Stereo\n\tDriver: PipeWire\n\nSource #3\n\tName: bluez_input.headset\n\tDescription: Headset\n";
    let devices = parse_sources(text);
    assert_eq!(devices.len(), 2);
    assert_eq!(devices[0].name, "alsa_input.pci.analog-stereo");
    assert_eq!(devices[0].description, "Built-in Audio Analog Stereo");
    assert_eq!(devices[1].name, "bluez_input.headset");
    assert_eq!(devices[1].description, "Headset");
}

#[test]
fn description_monitor_prefix_is_skipped() {
    let text = "\tName: some.source\n\tDescription: Monitor of Speakers\n\tName: mic\n\tDescription: Mic\n";
    let devices = parse_sources(text);
    assert_eq!(devices.len(), 1);
    assert_eq!(devices[0].name, "mic");
}

#[test]
fn description_before_any_name() {
    let devices = parse_sources("\tDescription: Orphan\r\n");
    assert_eq!(devices.len(), 1);
    assert_eq!(devices[0].name, "");
    assert_eq!(devices[0].description, "Orphan");
    assert!(parse_sources("").is_empty());
}
