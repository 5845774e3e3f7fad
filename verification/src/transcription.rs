//! What the transcription worker asks Whisper for and what it makes of the
//! answer.
use crate::chars::{chars_of, str_eq, string_of, unicode_white_space};
use vstd::prelude::*;
use vstd::string::StringExecFns;

verus! {

/// The language to ask Whisper for: none (detection) for `auto`.
pub fn whisper_language(language: &str) -> (r: Option<&str>)
    ensures
        language@ == "auto"@ ==> r is None,
        language@ != "auto"@ ==> r == Some(language),
{
    if str_eq(language, "auto") {
        None
    } else {
        Some(language)
    }
}

/// `s` without the white space at its start.
pub open spec fn trim_start(s: Seq<char>) -> Seq<char>
    decreases s.len(),
{
    if s.len() > 0 && unicode_white_space(s[0]) {
        trim_start(s.drop_first())
    } else {
        s
    }
}

/// `s` without the white space at its end.
pub open spec fn trim_end(s: Seq<char>) -> Seq<char>
    decreases s.len(),
{
    if s.len() > 0 && unicode_white_space(s.last()) {
        trim_end(s.drop_last())
    } else {
        s
    }
}

/// `s` without white space at either end.
pub open spec fn trimmed(s: Seq<char>) -> Seq<char> {
    trim_end(trim_start(s))
}

/// `text` without white space at either end.
pub fn trim(text: &str) -> (r: String)
    ensures
        r@ == trimmed(text@),
{
    let cs = chars_of(text);
    let n = cs.len();
    let mut lo: usize = 0;
    assert(cs@.skip(0) =~= cs@);
    while lo < n && cs[lo].is_whitespace()
        invariant
            lo <= n,
            n == cs.len(),
            trim_start(cs@) == trim_start(cs@.skip(lo as int)),
        decreases n - lo,
    {
        assert(cs@.skip(lo as int).drop_first() =~= cs@.skip(lo + 1));
        lo = lo + 1;
    }
    let ghost front = cs@.skip(lo as int);
    assert(trim_start(cs@) == front);
    let mut hi: usize = n;
    assert(front =~= cs@.subrange(lo as int, n as int));
    while hi > lo && cs[hi - 1].is_whitespace()
        invariant
            lo <= hi <= n,
            n == cs.len(),
            front == cs@.skip(lo as int),
            trim_end(front) == trim_end(cs@.subrange(lo as int, hi as int)),
        decreases hi - lo,
    {
        assert(cs@.subrange(lo as int, hi as int).drop_last() =~= cs@.subrange(lo as int, hi - 1));
        hi = hi - 1;
    }
    let mut out: Vec<char> = Vec::new();
    let mut i = lo;
    while i < hi
        invariant
            lo <= i <= hi,
            hi <= n,
            n == cs.len(),
            out@ == cs@.subrange(lo as int, i as int),
        decreases hi - i,
    {
        out.push(cs[i]);
        assert(cs@.subrange(lo as int, i + 1) =~= cs@.subrange(lo as int, i as int).push(cs@[i as int]));
        i = i + 1;
    }
    proof {
        if lo == n {
            assert(front.len() == 0);
        }
    }
    string_of(&out)
}

/// The transcript made of Whisper's segment texts: their concatenation,
/// without white space at either end.
pub fn transcript_text(segments: &Vec<String>) -> (r: String)
    ensures
        r@ == trimmed(segments@.map_values(|s: String| s@).flatten()),
{
    let ghost views = segments@.map_values(|s: String| s@);
    let mut text = String::new();
    for i in 0..segments.len()
        invariant
            views == segments@.map_values(|s: String| s@),
            text@ == views.take(i as int).flatten(),
    {
        proof {
            views.take(i as int).lemma_flatten_push(segments@[i as int]@);
            assert(views.take(i + 1) =~= views.take(i as int).push(segments@[i as int]@));
        }
        text.append(segments[i].as_str());
    }
    assert(views.take(segments.len() as int) =~= views);
    trim(text.as_str())
}

} // verus!
