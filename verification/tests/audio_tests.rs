use sotto::audio::{select_device, take_frames, CHANNELS, CHUNK_SIZE, SAMPLE_RATE};

#[test]
fn capture_parameters() {
    assert_eq!(SAMPLE_RATE, 16000);
    assert_eq!(CHANNELS, 1);
    assert_eq!(CHUNK_SIZE, 512);
}

#[test]
fn frames_are_cut_from_the_front() {
    let mut pending: Vec<i32> = (0..10).collect();
    let frames = take_frames(&mut pending, 4);
    assert_eq!(frames, vec![vec![0, 1, 2, 3], vec![4, 5, 6, 7]]);
    assert_eq!(pending, vec![8, 9]);
}

#[test]
fn short_buffers_yield_no_frame() {
    let mut pending: Vec<f32> = vec![0.5; 511];
    let frames = take_frames(&mut pending, CHUNK_SIZE);
    assert!(frames.is_empty());
    assert_eq!(pending.len(), 511);
    let mut exact: Vec<f32> = vec![0.25; 1024];
    let frames = take_frames(&mut exact, CHUNK_SIZE);
    assert_eq!(frames.len(), 2);
    assert!(exact.is_empty());
}

#[test]
fn device_is_found_by_name() {
    let names = vec![None, Some("mic".to_string()), Some("usb".to_string()), Some("mic".to_string())];
    assert_eq!(select_device(&names, "mic"), Ok(1));
    assert_eq!(select_device(&names, "usb"), Ok(2));
    assert_eq!(select_device(&names, "none"), Err("Device 'none' not found".to_string()));
    assert_eq!(select_device(&vec![], "x"), Err("Device 'x' not found".to_string()));
}
