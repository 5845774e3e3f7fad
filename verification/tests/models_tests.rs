use sotto::models::{can_delete_model, content_length, default_model, downloaded_models, is_english_only, model_index, models, partial_file_name};

#[test]
fn catalog_has_twelve_models() {
    let ms = models();
    assert_eq!(ms.len(), 12);
    assert_eq!(ms[0].id, "ggml-tiny.en.bin");
    assert_eq!(ms[11].name, "Large v3 Turbo");
    assert_eq!(ms[2].size, "148 MB");
    for m in &ms {
        assert_eq!(m.url, format!("https://huggingface.co/ggerganov/whisper.cpp/resolve/main/{}", m.id));
    }
    assert!(ms.iter().any(|m| m.id == default_model()));
}

#[test]
fn downloaded_filter_and_index() {
    let ms = models();
    let flags: Vec<bool> = (0..ms.len()).map(|i| i == 2 || i == 5).collect();
    let d = downloaded_models(&ms, &flags);
    assert_eq!(d.len(), 2);
    assert_eq!(d[0].id, "ggml-base.en.bin");
    assert_eq!(d[1].id, "ggml-small.bin");
    assert_eq!(model_index(&d, "ggml-small.bin"), 1);
    assert_eq!(model_index(&d, "ggml-tiny.bin"), 0);
}

#[test]
fn model_helpers() {
    assert!(is_english_only("ggml-tiny.en.bin"));
    assert!(!is_english_only("ggml-large-v3.bin"));
    assert_eq!(partial_file_name("ggml-tiny.bin"), "ggml-tiny.bin.part");
    assert!(!can_delete_model("ggml-tiny.bin", "ggml-tiny.bin"));
    assert!(can_delete_model("ggml-tiny.bin", "ggml-base.bin"));
}

#[test]
fn content_length_values() {
    assert_eq!(content_length("1024"), 1024);
    assert_eq!(content_length("+5"), 5);
    assert_eq!(content_length("007"), 7);
    assert_eq!(content_length("18446744073709551615"), u64::MAX);
    assert_eq!(content_length("18446744073709551616"), 0);
    assert_eq!(content_length(""), 0);
    assert_eq!(content_length("+"), 0);
    assert_eq!(content_length("-5"), 0);
    assert_eq!(content_length(" 12"), 0);
    assert_eq!(content_length("12a"), 0);
}
