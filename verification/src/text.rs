//! Spoken punctuation: spoken phrases become symbols, stray spaces around
//! punctuation are removed and sentences are capitalised.
use crate::chars::{
    all_ascii, ascii_upper, chars_of, is_ascii_char, is_ascii_lower, is_ascii_upper, string_of,
    to_uppercase, unicode_alphabetic, unicode_uppercase, unicode_white_space,
};
use vstd::prelude::*;
use vstd::string::StringExecFns;

verus! {

// ---------------------------------------------------------------------------
// The regex crate
// ---------------------------------------------------------------------------
/// Whether `regex::Regex::new` accepts `pattern`.
pub uninterp spec fn regex_accepts(pattern: Seq<char>) -> bool;

/// What `Regex::replace_all` gives for the regex compiled from `pattern`,
/// applied to `haystack` with the replacement string `replacement`.
pub uninterp spec fn regex_replaced(
    pattern: Seq<char>,
    haystack: Seq<char>,
    replacement: Seq<char>,
) -> Seq<char>;

/// The characters that `regex::escape` precedes with a backslash
/// (`regex_syntax::is_meta_character`).
pub open spec fn is_regex_meta(c: char) -> bool {
    c == '\\' || c == '.' || c == '+' || c == '*' || c == '?' || c == '(' || c == ')' || c
        == '|' || c == '[' || c == ']' || c == '{' || c == '}' || c == '^' || c == '$' || c
        == '#' || c == '&' || c == '-' || c == '~'
}

/// `regex::escape`: every meta character gets a backslash in front of it.
pub open spec fn regex_escaped(s: Seq<char>) -> Seq<char>
    decreases s.len(),
{
    if s.len() == 0 {
        seq![]
    } else {
        let head = if is_regex_meta(s[0]) {
            seq!['\\', s[0]]
        } else {
            seq![s[0]]
        };
        head + regex_escaped(s.drop_first())
    }
}

/// Calls `regex::escape`, which puts a backslash before each regex meta
/// character of `text` and keeps every other character.
#[verifier::external_body]
fn regex_escape(text: &str) -> (r: String)
    ensures
        r@ == regex_escaped(text@),
{
    regex::escape(text)
}

/// Calls `regex::Regex::new(pattern)` and, when it succeeds,
/// `Regex::replace_all(haystack, replacement)`. The contract says that the
/// result is present exactly when the pattern compiles, and names the
/// replaced text; it does not spell out regex matching.
#[verifier::external_body]
fn regex_replace_all(pattern: &str, haystack: &str, replacement: &str) -> (r: Option<String>)
    ensures
        r is Some <==> regex_accepts(pattern@),
        r matches Some(s) ==> s@ == regex_replaced(pattern@, haystack@, replacement@),
{
    match regex::Regex::new(pattern) {
        Ok(re) => Some(re.replace_all(haystack, replacement).into_owned()),
        Err(_) => None,
    }
}

// ---------------------------------------------------------------------------
// The spoken phrases
// ---------------------------------------------------------------------------
/// The spoken phrases and the symbols they stand for, in the order in which
/// they are replaced (longer phrases before the phrases they contain).
pub open spec fn spoken_rules() -> Seq<(Seq<char>, Seq<char>)> {
    seq![
        ("question mark"@, "?"@),
        ("exclamation mark"@, "!"@),
        ("exclamation point"@, "!"@),
        ("open paren"@, "("@),
        ("close paren"@, ")"@),
        ("open bracket"@, "["@),
        ("close bracket"@, "]"@),
        ("open brace"@, "{"@),
        ("close brace"@, "}"@),
        ("new paragraph"@, "\n\n"@),
        ("new line"@, "\n"@),
        ("period"@, "."@),
        ("comma"@, ","@),
        ("colon"@, ":"@),
        ("semicolon"@, ";"@),
        ("dash"@, "-"@),
        ("hyphen"@, "-"@),
        ("underscore"@, "_"@),
        ("hash"@, "#"@),
        ("asterisk"@, "*"@),
        ("slash"@, "/"@),
        ("backslash"@, "\\"@),
        ("pipe"@, "|"@),
        ("tilde"@, "~"@),
        ("tab"@, "\t"@),
    ]
}

pub open spec fn rule_views(rules: Seq<(&'static str, &'static str)>) -> Seq<(Seq<char>, Seq<char>)> {
    rules.map_values(|r: (&'static str, &'static str)| (r.0@, r.1@))
}

/// The spoken phrases with their symbols.
pub fn spoken_punctuation() -> (rules: Vec<(&'static str, &'static str)>)
    ensures
        rule_views(rules@) == spoken_rules(),
{
    let rules = vec![
        ("question mark", "?"),
        ("exclamation mark", "!"),
        ("exclamation point", "!"),
        ("open paren", "("),
        ("close paren", ")"),
        ("open bracket", "["),
        ("close bracket", "]"),
        ("open brace", "{"),
        ("close brace", "}"),
        ("new paragraph", "\n\n"),
        ("new line", "\n"),
        ("period", "."),
        ("comma", ","),
        ("colon", ":"),
        ("semicolon", ";"),
        ("dash", "-"),
        ("hyphen", "-"),
        ("underscore", "_"),
        ("hash", "#"),
        ("asterisk", "*"),
        ("slash", "/"),
        ("backslash", "\\"),
        ("pipe", "|"),
        ("tilde", "~"),
        ("tab", "\t"),
    ];
    assert(rule_views(rules@) =~= spoken_rules());
    rules
}

/// The regex that finds a phrase: case-insensitive, as a whole word.
pub open spec fn phrase_pattern(phrase: Seq<char>) -> Seq<char> {
    "(?i)\\b"@ + regex_escaped(phrase) + "\\b"@
}

/// Builds the regex source that matches `phrase` as a whole word, ignoring case.
pub fn phrase_regex(phrase: &str) -> (pattern: String)
    ensures
        pattern@ == phrase_pattern(phrase@),
{
    let mut pattern = String::from_str("(?i)\\b");
    let escaped = regex_escape(phrase);
    pattern.append(escaped.as_str());
    pattern.append("\\b");
    pattern
}

/// Replaces each spoken phrase of `rules`, in order, by its symbol. A rule
/// whose pattern the regex crate refuses is skipped.
pub open spec fn replace_phrases(text: Seq<char>, rules: Seq<(Seq<char>, Seq<char>)>) -> Seq<char>
    decreases rules.len(),
{
    if rules.len() == 0 {
        text
    } else {
        let pattern = phrase_pattern(rules[0].0);
        let next = if regex_accepts(pattern) {
            regex_replaced(pattern, text, rules[0].1)
        } else {
            text
        };
        replace_phrases(next, rules.drop_first())
    }
}

// ---------------------------------------------------------------------------
// Literal replacement (the semantics of `str::replace`)
// ---------------------------------------------------------------------------
/// Replaces, from left to right, each non-overlapping occurrence of the
/// non-empty `pat` in `s` by `rep`.
pub open spec fn replace_literal(s: Seq<char>, pat: Seq<char>, rep: Seq<char>) -> Seq<char>
    decreases s.len(),
{
    if pat.len() == 0 || s.len() < pat.len() {
        s
    } else if s.take(pat.len() as int) == pat {
        rep + replace_literal(s.skip(pat.len() as int), pat, rep)
    } else {
        seq![s[0]] + replace_literal(s.drop_first(), pat, rep)
    }
}

/// Whether an occurrence of `pat` in `x + y` starts in `x` and ends in `y`.
pub open spec fn straddles(x: Seq<char>, y: Seq<char>, pat: Seq<char>) -> bool {
    exists|i: int|
        x.len() - pat.len() < i < x.len() && 0 <= i && #[trigger] (x + y).subrange(i, i + pat.len())
            == pat && i + pat.len() <= x.len() + y.len()
}

/// Literal replacement acts on every occurrence, wherever it stands: when no
/// occurrence of the pattern straddles the join, replacing in `x + y` is
/// replacing in `x` and in `y`. (So every `" ,"` of a text loses its space,
/// not only the first.)
pub proof fn lemma_replace_literal_concat(x: Seq<char>, y: Seq<char>, pat: Seq<char>, rep: Seq<char>)
    requires
        pat.len() > 0,
        !straddles(x, y, pat),
    ensures
        replace_literal(x + y, pat, rep) == replace_literal(x, pat, rep) + replace_literal(y, pat, rep),
    decreases x.len(),
{
    let s = x + y;
    let p = pat.len() as int;
    if x.len() == 0 {
        assert(s =~= y);
        assert(replace_literal(x, pat, rep) =~= Seq::<char>::empty());
        assert(replace_literal(x, pat, rep) + replace_literal(y, pat, rep) =~= replace_literal(y, pat, rep));
    } else if s.len() < p {
        assert(replace_literal(x, pat, rep) == x);
        assert(replace_literal(y, pat, rep) == y);
    } else if s.take(p) == pat {
        if x.len() < p {
            assert(s.subrange(0int, 0int + pat.len()) =~= s.take(p));
            assert(straddles(x, y, pat));
        }
        assert(x.take(p) =~= s.take(p));
        let x2 = x.skip(p);
        assert(s.skip(p) =~= x2 + y);
        if straddles(x2, y, pat) {
            let j = choose|j: int|
                x2.len() - pat.len() < j < x2.len() && 0 <= j && #[trigger] (x2 + y).subrange(j, j + pat.len())
                    == pat && j + pat.len() <= x2.len() + y.len();
            assert((x + y).subrange(j + p, j + p + pat.len()) =~= (x2 + y).subrange(j, j + pat.len()));
            assert(straddles(x, y, pat));
        }
        lemma_replace_literal_concat(x2, y, pat, rep);
        assert(rep + (replace_literal(x2, pat, rep) + replace_literal(y, pat, rep)) =~= (rep
            + replace_literal(x2, pat, rep)) + replace_literal(y, pat, rep));
    } else {
        let x2 = x.drop_first();
        assert(s.drop_first() =~= x2 + y);
        if straddles(x2, y, pat) {
            let j = choose|j: int|
                x2.len() - pat.len() < j < x2.len() && 0 <= j && #[trigger] (x2 + y).subrange(j, j + pat.len())
                    == pat && j + pat.len() <= x2.len() + y.len();
            assert((x + y).subrange(j + 1, j + 1 + pat.len()) =~= (x2 + y).subrange(j, j + pat.len()));
            assert(straddles(x, y, pat));
        }
        lemma_replace_literal_concat(x2, y, pat, rep);
        if x.len() < p {
            assert(replace_literal(x, pat, rep) == x);
            assert(replace_literal(x2, pat, rep) == x2);
            assert(x =~= seq![x[0]] + x2);
        } else {
            assert(x.take(p) =~= s.take(p));
            assert(replace_literal(x, pat, rep) == seq![x[0]] + replace_literal(x2, pat, rep));
        }
        assert(s[0] == x[0]);
        assert(seq![x[0]] + (replace_literal(x2, pat, rep) + replace_literal(y, pat, rep)) =~= (seq![x[0]]
            + replace_literal(x2, pat, rep)) + replace_literal(y, pat, rep));
    }
}

/// Replaces each occurrence of the two characters `first second` by `with`.
pub fn replace_pair(s: &Vec<char>, first: char, second: char, with: char) -> (r: Vec<char>)
    ensures
        r@ == replace_literal(s@, seq![first, second], seq![with]),
{
    let ghost pat = seq![first, second];
    let ghost rep = seq![with];
    let n = s.len();
    let mut out: Vec<char> = Vec::new();
    let mut i: usize = 0;
    assert(s@.skip(0) =~= s@);
    while i < n
        invariant
            n == s.len(),
            i <= n,
            replace_literal(s@, pat, rep) == out@ + replace_literal(s@.skip(i as int), pat, rep),
            pat == seq![first, second],
            rep == seq![with],
        decreases n - i,
    {
        let ghost rest = s@.skip(i as int);
        if i + 1 < n && s[i] == first && s[i + 1] == second {
            assert(rest.take(2) =~= pat);
            assert(rest.skip(2) =~= s@.skip(i + 2));
            out.push(with);
            i = i + 2;
        } else {
            proof {
                if rest.len() >= 2 {
                    assert(rest.take(2) != pat) by {
                        if rest.take(2) == pat {
                            assert(rest.take(2)[0] == s@[i as int]);
                            assert(rest.take(2)[1] == s@[i + 1]);
                        }
                    }
                    assert(rest.drop_first() =~= s@.skip(i + 1));
                } else {
                    assert(rest.len() == 1);
                    assert(s@.skip(i + 1).len() == 0);
                    assert(replace_literal(rest, pat, rep) == rest);
                    assert(replace_literal(s@.skip(i + 1), pat, rep) == s@.skip(i + 1));
                    assert(rest =~= seq![s@[i as int]] + s@.skip(i + 1));
                }
            }
            out.push(s[i]);
            i = i + 1;
        }
    }
    assert(s@.skip(n as int).len() == 0);
    out
}

// ---------------------------------------------------------------------------
// Spaces around punctuation
// ---------------------------------------------------------------------------
/// Punctuation that closes: a space in front of it is removed.
pub open spec fn closing_marks() -> Seq<char> {
    seq!['.', ',', '?', '!', ':', ';', ')', ']', '}']
}

/// Punctuation that opens: a space after it is removed.
pub open spec fn opening_marks() -> Seq<char> {
    seq!['(', '[', '{', '#', '@']
}

/// Removes, mark by mark in the order of `marks`, each space that stands
/// right before the mark.
pub open spec fn join_before(s: Seq<char>, marks: Seq<char>) -> Seq<char>
    decreases marks.len(),
{
    if marks.len() == 0 {
        s
    } else {
        join_before(replace_literal(s, seq![' ', marks[0]], seq![marks[0]]), marks.drop_first())
    }
}

/// Removes, mark by mark in the order of `marks`, each space that stands
/// right after the mark.
pub open spec fn join_after(s: Seq<char>, marks: Seq<char>) -> Seq<char>
    decreases marks.len(),
{
    if marks.len() == 0 {
        s
    } else {
        join_after(replace_literal(s, seq![marks[0], ' '], seq![marks[0]]), marks.drop_first())
    }
}

/// The space-removal step of spoken punctuation.
pub open spec fn join_marks(s: Seq<char>) -> Seq<char> {
    join_after(join_before(s, closing_marks()), opening_marks())
}

fn join_marks_exec(s: Vec<char>) -> (r: Vec<char>)
    ensures
        r@ == join_marks(s@),
{
    let closing = vec!['.', ',', '?', '!', ':', ';', ')', ']', '}'];
    let opening = vec!['(', '[', '{', '#', '@'];
    assert(closing@ =~= closing_marks());
    assert(opening@ =~= opening_marks());
    let mut cur = s;
    assert(closing@.skip(0) =~= closing@);
    for i in 0..closing.len()
        invariant
            closing@ == closing_marks(),
            join_before(s@, closing@) == join_before(cur@, closing@.skip(i as int)),
    {
        assert(closing@.skip(i as int).drop_first() =~= closing@.skip(i + 1));
        cur = replace_pair(&cur, ' ', closing[i], closing[i]);
    }
    assert(closing@.skip(closing.len() as int) =~= Seq::<char>::empty());
    let ghost mid = cur@;
    assert(opening@.skip(0) =~= opening@);
    for i in 0..opening.len()
        invariant
            opening@ == opening_marks(),
            join_after(mid, opening@) == join_after(cur@, opening@.skip(i as int)),
    {
        assert(opening@.skip(i as int).drop_first() =~= opening@.skip(i + 1));
        cur = replace_pair(&cur, opening[i], ' ', opening[i]);
    }
    assert(opening@.skip(opening.len() as int) =~= Seq::<char>::empty());
    cur
}

// ---------------------------------------------------------------------------
// Sentence capitalisation
// ---------------------------------------------------------------------------
/// Ends a sentence.
pub open spec fn is_sentence_end(c: char) -> bool {
    c == '.' || c == '!' || c == '?'
}

/// What one character contributes to the output, given whether the next
/// letter is to be capitalised (`cap`) and whether the previous character
/// ended a sentence (`after_end`): a letter right after a sentence end gets a
/// space in front, and a letter to be capitalised is upper-cased.
pub open spec fn capitalize_output(c: char, cap: bool, after_end: bool) -> Seq<char> {
    let gap: Seq<char> = if after_end && unicode_alphabetic(c) {
        seq![' ']
    } else {
        seq![]
    };
    if cap && unicode_alphabetic(c) {
        gap + unicode_uppercase(c)
    } else {
        gap.push(c)
    }
}

/// Whether the letter after `c` is to be capitalised.
pub open spec fn capitalize_next(c: char, cap: bool) -> bool {
    if cap && unicode_alphabetic(c) {
        false
    } else if is_sentence_end(c) || c == '\n' {
        true
    } else if unicode_white_space(c) {
        cap
    } else {
        false
    }
}

/// Whether `c` ends a sentence, for the character after it.
pub open spec fn ends_sentence_next(c: char, cap: bool) -> bool {
    !(cap && unicode_alphabetic(c)) && is_sentence_end(c)
}

/// Capitalisation of `s`, starting in the given state.
pub open spec fn capitalized_from(s: Seq<char>, cap: bool, after_end: bool) -> Seq<char>
    decreases s.len(),
{
    if s.len() == 0 {
        seq![]
    } else {
        capitalize_output(s[0], cap, after_end) + capitalized_from(
            s.drop_first(),
            capitalize_next(s[0], cap),
            ends_sentence_next(s[0], cap),
        )
    }
}

/// Capitalisation of a whole text: the first letter of the text and the first
/// letter after each `.`, `!`, `?` or line break are upper-cased, and a
/// letter that directly follows `.`, `!` or `?` is separated from it by a space.
pub open spec fn capitalized(s: Seq<char>) -> Seq<char> {
    capitalized_from(s, true, false)
}

proof fn lemma_capitalized_from_no_letters(s: Seq<char>, cap: bool, after_end: bool)
    requires
        forall|i: int| 0 <= i < s.len() ==> !unicode_alphabetic(#[trigger] s[i]),
    ensures
        capitalized_from(s, cap, after_end) == s,
    decreases s.len(),
{
    if s.len() > 0 {
        let rest = s.drop_first();
        assert forall|i: int| 0 <= i < rest.len() implies !unicode_alphabetic(#[trigger] rest[i]) by {
            assert(rest[i] == s[i + 1]);
        }
        assert(!unicode_alphabetic(s[0]));
        lemma_capitalized_from_no_letters(rest, capitalize_next(s[0], cap), ends_sentence_next(s[0], cap));
        assert(s =~= seq![s[0]] + rest);
    }
}

/// Capitalisation changes nothing in a text without letters.
pub proof fn lemma_capitalize_without_letters(s: Seq<char>)
    requires
        forall|i: int| 0 <= i < s.len() ==> !unicode_alphabetic(#[trigger] s[i]),
    ensures
        capitalized(s) == s,
{
    lemma_capitalized_from_no_letters(s, true, false);
}

/// The first character of a text, when it is a letter, is upper-cased.
pub proof fn lemma_first_letter_capitalized(s: Seq<char>)
    requires
        s.len() > 0,
        unicode_alphabetic(s[0]),
    ensures
        capitalized(s) == unicode_uppercase(s[0]) + capitalized_from(s.drop_first(), false, false),
{
    assert(seq![] + unicode_uppercase(s[0]) =~= unicode_uppercase(s[0]));
}

/// Whether `s` holds none of `.`, `!`, `?` and the line break, the characters
/// after which a new sentence starts.
pub open spec fn no_sentence_breaks(s: Seq<char>) -> bool {
    forall|i: int| 0 <= i < s.len() ==> !is_sentence_end(#[trigger] s[i]) && s[i] != '\n'
}

proof fn lemma_capitalized_from_inside_sentence(s: Seq<char>)
    requires
        no_sentence_breaks(s),
    ensures
        capitalized_from(s, false, false) == s,
    decreases s.len(),
{
    if s.len() > 0 {
        let rest = s.drop_first();
        assert forall|i: int| 0 <= i < rest.len() implies !is_sentence_end(#[trigger] rest[i]) && rest[i] != '\n' by {
            assert(rest[i] == s[i + 1]);
        }
        assert(!is_sentence_end(s[0]) && s[0] != '\n');
        assert(!capitalize_next(s[0], false));
        assert(!ends_sentence_next(s[0], false));
        lemma_capitalized_from_inside_sentence(rest);
        assert(capitalize_output(s[0], false, false) =~= seq![s[0]]);
        assert(s =~= seq![s[0]] + rest);
    }
}

/// Only sentence starts are capitalised: within one sentence (no `.`, `!`,
/// `?` or line break) nothing after the first character changes, whatever
/// it is (an apostrophe, a digit, a space), and a text that is one sentence
/// starting with a letter only has that letter upper-cased.
pub proof fn lemma_only_sentence_starts_capitalized(s: Seq<char>)
    requires
        no_sentence_breaks(s),
    ensures
        capitalized_from(s, false, false) == s,
        s.len() > 0 && unicode_alphabetic(s[0]) ==> capitalized(s) == unicode_uppercase(s[0])
            + s.drop_first(),
{
    lemma_capitalized_from_inside_sentence(s);
    if s.len() > 0 {
        let rest = s.drop_first();
        assert forall|i: int| 0 <= i < rest.len() implies !is_sentence_end(#[trigger] rest[i]) && rest[i] != '\n' by {
            assert(rest[i] == s[i + 1]);
        }
        lemma_capitalized_from_inside_sentence(rest);
        if unicode_alphabetic(s[0]) {
            lemma_first_letter_capitalized(s);
        }
    }
}

// ---------------------------------------------------------------------------
// Capitalisation of ASCII text
// ---------------------------------------------------------------------------
pub open spec fn ascii_letter(c: char) -> bool {
    is_ascii_lower(c) || is_ascii_upper(c)
}

pub open spec fn ascii_space(c: char) -> bool {
    c == ' ' || c == '\t' || c == '\n' || c == '\x0B' || c == '\x0C' || c == '\r'
}

/// `capitalize_output` for an ASCII character.
pub open spec fn ascii_output(c: char, cap: bool, after_end: bool) -> Seq<char> {
    let gap: Seq<char> = if after_end && ascii_letter(c) {
        seq![' ']
    } else {
        seq![]
    };
    if cap && ascii_letter(c) {
        gap.push(ascii_upper(c))
    } else {
        gap.push(c)
    }
}

/// `capitalize_next` for an ASCII character.
pub open spec fn ascii_next(c: char, cap: bool) -> bool {
    if cap && ascii_letter(c) {
        false
    } else if is_sentence_end(c) || c == '\n' {
        true
    } else if ascii_space(c) {
        cap
    } else {
        false
    }
}

/// `ends_sentence_next` for an ASCII character.
pub open spec fn ascii_ends_next(c: char, cap: bool) -> bool {
    !(cap && ascii_letter(c)) && is_sentence_end(c)
}

/// Capitalisation of an ASCII text, starting in the given state.
pub open spec fn ascii_capitalized_from(s: Seq<char>, cap: bool, after_end: bool) -> Seq<char>
    decreases s.len(),
{
    if s.len() == 0 {
        seq![]
    } else {
        ascii_output(s[0], cap, after_end) + ascii_capitalized_from(
            s.drop_first(),
            ascii_next(s[0], cap),
            ascii_ends_next(s[0], cap),
        )
    }
}

/// Capitalisation of an ASCII text.
pub open spec fn ascii_capitalized(s: Seq<char>) -> Seq<char> {
    ascii_capitalized_from(s, true, false)
}

proof fn lemma_ascii_capitalized_from_idempotent(s: Seq<char>, cap: bool, after_end: bool)
    requires
        all_ascii(s),
        after_end ==> cap,
    ensures
        all_ascii(ascii_capitalized_from(s, cap, after_end)),
        ascii_capitalized_from(ascii_capitalized_from(s, cap, after_end), cap, after_end)
            == ascii_capitalized_from(s, cap, after_end),
    decreases s.len(),
{
    if s.len() > 0 {
        let c = s[0];
        let cap2 = ascii_next(c, cap);
        let end2 = ascii_ends_next(c, cap);
        let rest = s.drop_first();
        assert forall|i: int| 0 <= i < rest.len() implies is_ascii_char(#[trigger] rest[i]) by {
            assert(rest[i] == s[i + 1]);
        }
        lemma_ascii_capitalized_from_idempotent(rest, cap2, end2);
        let r = ascii_capitalized_from(rest, cap2, end2);
        let o = ascii_output(c, cap, after_end);
        assert(ascii_capitalized_from(s, cap, after_end) == o + r);
        assert(is_ascii_char(c));
        if cap && ascii_letter(c) {
            let u = ascii_upper(c);
            assert(ascii_letter(u) && ascii_upper(u) == u && is_ascii_char(u));
            if after_end {
                let t = seq![' ', u] + r;
                assert(o =~= seq![' ', u]);
                assert(t.drop_first() =~= seq![u] + r);
                assert((seq![u] + r).drop_first() =~= r);
                assert(ascii_capitalized_from(seq![u] + r, true, false) == seq![u] + r);
                assert(ascii_capitalized_from(t, cap, after_end) =~= t);
            } else {
                let t = seq![u] + r;
                assert(o =~= seq![u]);
                assert(t.drop_first() =~= r);
                assert(ascii_capitalized_from(t, cap, after_end) =~= t);
            }
        } else {
            let t = seq![c] + r;
            assert(o =~= seq![c]);
            assert(t.drop_first() =~= r);
            assert(ascii_capitalized_from(t, cap, after_end) =~= t);
        }
        assert forall|i: int| 0 <= i < (o + r).len() implies is_ascii_char(#[trigger] (o + r)[i]) by {
            if i >= o.len() {
                assert((o + r)[i] == r[i - o.len()]);
            }
        }
    }
}

/// On an ASCII character the Unicode step of capitalisation is the ASCII one.
proof fn lemma_ascii_step(c: char, cap: bool, after_end: bool)
    requires
        is_ascii_char(c),
        unicode_alphabetic(c) == ascii_letter(c),
        unicode_white_space(c) == ascii_space(c),
        cap && ascii_letter(c) ==> unicode_uppercase(c) == seq![ascii_upper(c)],
    ensures
        capitalize_output(c, cap, after_end) == ascii_output(c, cap, after_end),
        capitalize_next(c, cap) == ascii_next(c, cap),
        ends_sentence_next(c, cap) == ascii_ends_next(c, cap),
{
    if cap && ascii_letter(c) {
        if after_end {
            assert(seq![' '] + seq![ascii_upper(c)] =~= seq![' '].push(ascii_upper(c)));
        } else {
            assert(Seq::<char>::empty() + seq![ascii_upper(c)] =~= Seq::<char>::empty().push(ascii_upper(c)));
        }
    }
}

proof fn lemma_ascii_unfold(s: Seq<char>, i: int, cap: bool, after_end: bool)
    requires
        0 <= i < s.len(),
    ensures
        ascii_capitalized_from(s.skip(i), cap, after_end) == ascii_output(s[i], cap, after_end)
            + ascii_capitalized_from(s.skip(i + 1), ascii_next(s[i], cap), ascii_ends_next(s[i], cap)),
{
    assert(s.skip(i).drop_first() =~= s.skip(i + 1));
}

/// Capitalising an ASCII text twice gives what capitalising it once gives,
/// and the result is ASCII again.
pub proof fn lemma_ascii_capitalize_idempotent(s: Seq<char>)
    requires
        all_ascii(s),
    ensures
        all_ascii(ascii_capitalized(s)),
        ascii_capitalized(ascii_capitalized(s)) == ascii_capitalized(s),
{
    lemma_ascii_capitalized_from_idempotent(s, true, false);
}

proof fn lemma_ascii_capitalized_from_inside_sentence(s: Seq<char>)
    requires
        no_sentence_breaks(s),
    ensures
        ascii_capitalized_from(s, false, false) == s,
    decreases s.len(),
{
    if s.len() > 0 {
        let rest = s.drop_first();
        assert forall|i: int| 0 <= i < rest.len() implies !is_sentence_end(#[trigger] rest[i]) && rest[i] != '\n' by {
            assert(rest[i] == s[i + 1]);
        }
        assert(!is_sentence_end(s[0]) && s[0] != '\n');
        assert(!ascii_next(s[0], false));
        assert(!ascii_ends_next(s[0], false));
        lemma_ascii_capitalized_from_inside_sentence(rest);
        assert(ascii_output(s[0], false, false) =~= seq![s[0]]);
        assert(s =~= seq![s[0]] + rest);
    }
}

/// The same for an ASCII text, where upper-casing is known: "it's fine"
/// becomes "It's fine", the letter after the apostrophe staying as it is.
pub proof fn lemma_ascii_only_sentence_starts_capitalized(s: Seq<char>)
    requires
        no_sentence_breaks(s),
    ensures
        ascii_capitalized_from(s, false, false) == s,
        s.len() > 0 && ascii_letter(s[0]) ==> ascii_capitalized(s) == seq![ascii_upper(s[0])]
            + s.drop_first(),
{
    lemma_ascii_capitalized_from_inside_sentence(s);
    if s.len() > 0 {
        let rest = s.drop_first();
        assert forall|i: int| 0 <= i < rest.len() implies !is_sentence_end(#[trigger] rest[i]) && rest[i] != '\n' by {
            assert(rest[i] == s[i + 1]);
        }
        lemma_ascii_capitalized_from_inside_sentence(rest);
        if ascii_letter(s[0]) {
            assert(ascii_output(s[0], true, false) =~= seq![ascii_upper(s[0])]);
        }
    }
}

/// Upper-cases the first letter of each sentence and puts a space between a
/// sentence end and a letter that follows it directly.
#[verifier::rlimit(60)]
#[verifier::spinoff_prover]
pub fn capitalize_sentences(text: &str) -> (r: String)
    ensures
        r@ == capitalized(text@),
        all_ascii(text@) ==> r@ == ascii_capitalized(text@),
{
    let cs = chars_of(text);
    let n = cs.len();
    let mut result = String::new();
    let mut cap = true;
    let mut after_end = false;
    assert(cs@.skip(0) =~= cs@);
    for i in 0..n
        invariant
            n == cs.len(),
            capitalized(cs@) == result@ + capitalized_from(cs@.skip(i as int), cap, after_end),
            cs@ == text@,
            all_ascii(text@) ==> ascii_capitalized(cs@) == result@ + ascii_capitalized_from(
                cs@.skip(i as int),
                cap,
                after_end,
            ),
    {
        let c = cs[i];
        let ghost cap0 = cap;
        let ghost end0 = after_end;
        let ghost rest = cs@.skip(i as int);
        assert(rest.drop_first() =~= cs@.skip(i + 1));
        assert(rest[0] == c);
        let ghost before = result@;
        let alpha = c.is_alphabetic();
        let space = c.is_whitespace();
        let ghost ascii = all_ascii(text@);
        proof {
            if ascii {
                assert(is_ascii_char(cs@[i as int]));
            }
        }
        if after_end && alpha {
            result.push(' ');
        }
        let ghost gap = result@.skip(before.len() as int);
        assert(before + gap =~= result@);
        if cap && alpha {
            let upper = to_uppercase(c);
            let mut j: usize = 0;
            let ghost mid = result@;
            while j < upper.len()
                invariant
                    j <= upper.len(),
                    result@ == mid + upper@.take(j as int),
                decreases upper.len() - j,
            {
                assert(upper@.take(j + 1) =~= upper@.take(j as int).push(upper@[j as int]));
                result.push(upper[j]);
                j = j + 1;
            }
            assert(upper@.take(upper.len() as int) =~= upper@);
            proof {
                if ascii {
                    lemma_ascii_step(c, cap0, end0);
                }
            }
            cap = false;
            after_end = false;
        } else {
            proof {
                if ascii {
                    lemma_ascii_step(c, cap0, end0);
                }
            }
            result.push(c);
            if c == '.' || c == '!' || c == '?' {
                cap = true;
                after_end = true;
            } else if c == '\n' {
                cap = true;
                after_end = false;
            } else if space {
                after_end = false;
            } else {
                cap = false;
                after_end = false;
            }
        }
        assert(result@ =~= before + capitalize_output(c, cap0, end0));
        proof {
            if ascii {
                lemma_ascii_unfold(cs@, i as int, cap0, end0);
                assert(capitalize_output(c, cap0, end0) == ascii_output(c, cap0, end0));
                assert(cap == ascii_next(c, cap0));
                assert(after_end == ascii_ends_next(c, cap0));
            }
        }
    }
    assert(cs@.skip(n as int) =~= Seq::<char>::empty());
    result
}

// ---------------------------------------------------------------------------
// The whole pipeline
// ---------------------------------------------------------------------------
/// What follows the phrase replacement: spaces around punctuation are
/// removed, then sentences are capitalised.
pub open spec fn tidied(s: Seq<char>) -> Seq<char> {
    capitalized(join_marks(s))
}

/// Spoken punctuation applied to a transcript.
pub open spec fn punctuated(text: Seq<char>) -> Seq<char> {
    tidied(replace_phrases(text, spoken_rules()))
}

/// Removes spaces around punctuation marks and capitalises sentences.
pub fn tidy_punctuation(text: &str) -> (r: String)
    ensures
        r@ == tidied(text@),
{
    let cs = chars_of(text);
    let joined = join_marks_exec(cs);
    let s = string_of(&joined);
    capitalize_sentences(s.as_str())
}

/// Turns spoken punctuation in a transcript into symbols: each spoken phrase
/// (as a whole word, in any case) becomes its symbol, spaces before closing
/// and after opening marks are removed, and sentences are capitalised.
pub fn process_punctuation(text: &str) -> (r: String)
    ensures
        r@ == punctuated(text@),
{
    let rules = spoken_punctuation();
    let mut result = text.to_owned();
    let ghost views = rule_views(rules@);
    assert(views.skip(0) =~= views);
    for i in 0..rules.len()
        invariant
            views == rule_views(rules@),
            views == spoken_rules(),
            replace_phrases(text@, spoken_rules()) == replace_phrases(
                result@,
                views.skip(i as int),
            ),
    {
        let (phrase, symbol) = rules[i];
        assert(views.skip(i as int).drop_first() =~= views.skip(i + 1));
        assert(views.skip(i as int)[0] == (phrase@, symbol@));
        let pattern = phrase_regex(phrase);
        match regex_replace_all(pattern.as_str(), result.as_str(), symbol) {
            Some(replaced) => {
                result = replaced;
            },
            None => {},
        }
    }
    assert(views.skip(rules.len() as int) =~= Seq::<(Seq<char>, Seq<char>)>::empty());
    tidy_punctuation(result.as_str())
}

} // verus!
