use sotto::text::{capitalize_sentences, phrase_regex, process_punctuation, spoken_punctuation, tidy_punctuation};

#[test]
fn comma_and_period_become_symbols() {
    assert_eq!(process_punctuation("hello comma world period"), "Hello, world.");
}

#[test]
fn question_mark_closes_sentence() {
    assert_eq!(process_punctuation("what time is it question mark"), "What time is it?");
}

#[test]
fn exclamation_point_starts_new_sentence() {
    assert_eq!(
        process_punctuation("this is great exclamation point see you"),
        "This is great! See you"
    );
}

#[test]
fn phrases_match_in_any_case() {
    assert_eq!(process_punctuation("yes COMMA no Period"), "Yes, no.");
}

#[test]
fn phrases_match_whole_words_only() {
    assert_eq!(process_punctuation("periodic table"), "Periodic table");
    assert_eq!(process_punctuation("a semicolon b"), "A; b");
    assert_eq!(process_punctuation("a backslash b"), "A \\ b");
}

#[test]
fn brackets_hug_their_contents() {
    assert_eq!(process_punctuation("open paren aside close paren"), "(aside)");
    assert_eq!(process_punctuation("x open bracket y close bracket"), "X [y]");
    assert_eq!(process_punctuation("open brace z close brace"), "{z}");
}

#[test]
fn line_breaks_and_tabs() {
    assert_eq!(process_punctuation("first new line second"), "First \n Second");
    assert_eq!(process_punctuation("one new paragraph two"), "One \n\n Two");
    assert_eq!(process_punctuation("a tab b"), "A \t b");
}

#[test]
fn symbols_for_the_remaining_phrases() {
    assert_eq!(process_punctuation("hash tag"), "#tag");
    assert_eq!(process_punctuation("a dash b hyphen c"), "A - b - c");
    assert_eq!(process_punctuation("snake underscore case"), "Snake _ case");
    assert_eq!(process_punctuation("a asterisk b slash c pipe d tilde e"), "A * b / c | d ~ e");
    assert_eq!(process_punctuation("wow exclamation mark"), "Wow!");
    assert_eq!(process_punctuation("note colon done"), "Note: done");
}

#[test]
fn empty_transcript_stays_empty() {
    assert_eq!(process_punctuation(""), "");
}

#[test]
fn capitalize_inserts_space_after_sentence_end() {
    assert_eq!(capitalize_sentences("hello.world"), "Hello. World");
    assert_eq!(capitalize_sentences("a!b?c"), "A! B? C");
}

#[test]
fn capitalize_after_line_break_and_whitespace() {
    assert_eq!(capitalize_sentences("one\ntwo"), "One\nTwo");
    assert_eq!(capitalize_sentences("end.   next"), "End.   Next");
    assert_eq!(capitalize_sentences("3 apples"), "3 apples");
    assert_eq!(capitalize_sentences(""), "");
}

#[test]
fn capitalize_uses_unicode_upper_case() {
    assert_eq!(capitalize_sentences("ßa"), "SSa");
    assert_eq!(capitalize_sentences("éclair. été"), "Éclair. Été");
}

#[test]
fn tidy_removes_spaces_around_marks() {
    assert_eq!(tidy_punctuation("a , b ."), "A, b.");
    assert_eq!(tidy_punctuation("( x ) [ y ] { z } @ w"), "(x) [y] {z} @w");
}

#[test]
fn phrase_regex_escapes_and_bounds() {
    assert_eq!(phrase_regex("question mark"), "(?i)\\bquestion mark\\b");
    assert_eq!(phrase_regex("a.b"), "(?i)\\ba\\.b\\b");
}

#[test]
fn spoken_punctuation_table() {
    let rules = spoken_punctuation();
    assert_eq!(rules.len(), 25);
    assert_eq!(rules[0], ("question mark", "?"));
    assert_eq!(rules[9], ("new paragraph", "\n\n"));
    assert_eq!(rules[24], ("tab", "\t"));
}

#[test]
fn capitalize_twice_is_capitalize_once_on_ascii() {
    for t in ["hello.world", "a!b?c", "one\ntwo three. four", "end.   next", "(x) y. z", ""] {
        let once = capitalize_sentences(t);
        assert_eq!(capitalize_sentences(&once), once);
    }
}
