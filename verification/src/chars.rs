//! Character and string primitives from `std` that the text logic builds on.
use vstd::prelude::*;

verus! {

/// What `char::is_alphabetic` answers (the Unicode `Alphabetic` property).
pub uninterp spec fn unicode_alphabetic(c: char) -> bool;

/// What `char::is_whitespace` answers (the Unicode `White_Space` property).
pub uninterp spec fn unicode_white_space(c: char) -> bool;

/// The characters that `char::to_uppercase` yields for `c`.
pub uninterp spec fn unicode_uppercase(c: char) -> Seq<char>;

pub open spec fn is_ascii_lower(c: char) -> bool {
    'a' <= c <= 'z'
}

pub open spec fn is_ascii_upper(c: char) -> bool {
    'A' <= c <= 'Z'
}

pub open spec fn is_ascii_char(c: char) -> bool {
    (c as u32) < 128
}

pub open spec fn all_ascii(s: Seq<char>) -> bool {
    forall|i: int| 0 <= i < s.len() ==> is_ascii_char(#[trigger] s[i])
}

/// The ASCII upper-case form of an ASCII lower-case letter; other characters stay.
pub open spec fn ascii_upper(c: char) -> char {
    if is_ascii_lower(c) {
        ((c as u32) - 32) as char
    } else {
        c
    }
}

/// `char::is_alphabetic`: the Unicode `Alphabetic` property; among ASCII
/// characters exactly the letters have it.
pub assume_specification[ char::is_alphabetic ](c: char) -> (r: bool)
    ensures
        r == unicode_alphabetic(c),
        is_ascii_char(c) ==> (r <==> (is_ascii_lower(c) || is_ascii_upper(c))),
;

/// `char::is_whitespace`: the Unicode `White_Space` property; among ASCII
/// characters exactly space, tab, line feed, vertical tab, form feed and
/// carriage return have it.
pub assume_specification[ char::is_whitespace ](c: char) -> (r: bool)
    ensures
        r == unicode_white_space(c),
        is_ascii_char(c) ==> (r <==> (c == ' ' || c == '\t' || c == '\n' || c == '\x0B' || c
            == '\x0C' || c == '\r')),
;

/// `String::push` appends one character.
pub assume_specification[ String::push ](s: &mut String, ch: char)
    ensures
        final(s)@ == old(s)@.push(ch),
;

/// Calls `char::to_uppercase` and collects what it yields. The contract
/// names that sequence; for an ASCII character it is the ASCII upper-case
/// form alone.
#[verifier::external_body]
pub(crate) fn to_uppercase(c: char) -> (r: Vec<char>)
    ensures
        r@ == unicode_uppercase(c),
        is_ascii_char(c) ==> r@ == seq![ascii_upper(c)],
{
    c.to_uppercase().collect()
}

/// The characters of `s`, in order.
pub fn chars_of(s: &str) -> (v: Vec<char>)
    ensures
        v@ == s@,
{
    broadcast use vstd::string::group_string_axioms;
    let mut v: Vec<char> = Vec::new();
    for c in it: s.chars()
        invariant
            v@ == it.seq().take(it.index()),
            it.seq() == s@,
    {
        v.push(c);
    }
    v
}

/// The string made of the characters of `v`, in order.
pub fn string_of(v: &Vec<char>) -> (s: String)
    ensures
        s@ == v@,
{
    let mut s = String::new();
    for i in 0..v.len()
        invariant
            s@ == v@.take(i as int),
    {
        s.push(v[i]);
        assert(v@.take(i + 1) == v@.take(i as int).push(v@[i as int]));
    }
    assert(v@.take(v.len() as int) == v@);
    s
}

/// Whether `s` begins with `prefix`.
pub open spec fn has_prefix(s: Seq<char>, prefix: Seq<char>) -> bool {
    prefix.len() <= s.len() && s.take(prefix.len() as int) == prefix
}

/// Whether `needle` occurs in `hay` at position `i`.
pub open spec fn occurs_at(hay: Seq<char>, needle: Seq<char>, i: int) -> bool {
    0 <= i && i + needle.len() <= hay.len() && hay.subrange(i, i + needle.len()) == needle
}

/// Whether `needle` occurs somewhere in `hay`.
pub open spec fn has_infix(hay: Seq<char>, needle: Seq<char>) -> bool {
    exists|i: int| occurs_at(hay, needle, i)
}

/// Whether `needle` occurs in `hay` at position `at`.
fn matches_at(hay: &Vec<char>, needle: &Vec<char>, at: usize) -> (r: bool)
    requires
        at + needle.len() <= hay.len(),
    ensures
        r == occurs_at(hay@, needle@, at as int),
{
    for j in 0..needle.len()
        invariant
            at + needle.len() <= hay.len(),
            forall|k: int| 0 <= k < j ==> hay@[at + k] == needle@[k],
    {
        if hay[at + j] != needle[j] {
            assert(hay@.subrange(at as int, at + needle.len())[j as int] != needle@[j as int]);
            return false;
        }
    }
    assert(hay@.subrange(at as int, at + needle.len()) =~= needle@);
    true
}

/// Whether the two strings are equal.
pub fn str_eq(a: &str, b: &str) -> (r: bool)
    ensures
        r == (a@ == b@),
{
    let x = chars_of(a);
    let y = chars_of(b);
    if x.len() != y.len() {
        return false;
    }
    let r = matches_at(&x, &y, 0);
    assert(x@.subrange(0, y@.len() as int) =~= x@);
    r
}

/// Whether `s` begins with `prefix`.
pub fn starts_with(s: &str, prefix: &str) -> (r: bool)
    ensures
        r == has_prefix(s@, prefix@),
{
    let x = chars_of(s);
    let p = chars_of(prefix);
    if p.len() > x.len() {
        return false;
    }
    let r = matches_at(&x, &p, 0);
    assert(x@.subrange(0, p@.len() as int) =~= x@.take(p@.len() as int));
    r
}

/// Whether `needle` occurs in `hay`.
pub fn contains(hay: &str, needle: &str) -> (r: bool)
    ensures
        r == has_infix(hay@, needle@),
{
    let h = chars_of(hay);
    let n = chars_of(needle);
    if n.len() > h.len() {
        assert forall|i: int| !occurs_at(hay@, needle@, i) by {}
        return false;
    }
    let last = h.len() - n.len();
    let mut i: usize = 0;
    while i <= last
        invariant
            h@ == hay@,
            n@ == needle@,
            last == h.len() - n.len(),
            n.len() <= h.len(),
            forall|k: int| 0 <= k < i ==> !occurs_at(hay@, needle@, k),
        decreases last + 1 - i,
    {
        if matches_at(&h, &n, i) {
            return true;
        }
        if i == last {
            assert forall|k: int| !occurs_at(hay@, needle@, k) by {
                if 0 <= k <= i {
                }
            }
            return false;
        }
        i = i + 1;
    }
    false
}

/// The first position of `x` in `list`.
pub open spec fn index_of(list: Seq<Seq<char>>, x: Seq<char>) -> Option<int>
    decreases list.len(),
{
    if list.len() == 0 {
        None
    } else if list[0] == x {
        Some(0)
    } else {
        match index_of(list.drop_first(), x) {
            Some(i) => Some(i + 1),
            None => None,
        }
    }
}

pub open spec fn str_views(list: Seq<&str>) -> Seq<Seq<char>> {
    list.map_values(|s: &str| s@)
}

pub open spec fn string_views(list: Seq<String>) -> Seq<Seq<char>> {
    list.map_values(|s: String| s@)
}

/// A position found by `index_of` is a position of the list.
pub proof fn lemma_index_of_bounds(list: Seq<Seq<char>>, x: Seq<char>)
    ensures
        index_of(list, x) matches Some(i) ==> 0 <= i < list.len() && list[i] == x,
    decreases list.len(),
{
    if list.len() > 0 && list[0] != x {
        lemma_index_of_bounds(list.drop_first(), x);
    }
}

proof fn lemma_index_of_prefix(list: Seq<Seq<char>>, x: Seq<char>, i: int)
    requires
        0 <= i < list.len(),
        list[i] == x,
        forall|k: int| 0 <= k < i ==> list[k] != x,
    ensures
        index_of(list, x) == Some(i),
    decreases i,
{
    if i > 0 {
        lemma_index_of_prefix(list.drop_first(), x, i - 1);
    }
}

proof fn lemma_index_of_none(list: Seq<Seq<char>>, x: Seq<char>)
    requires
        forall|k: int| 0 <= k < list.len() ==> list[k] != x,
    ensures
        index_of(list, x) is None,
    decreases list.len(),
{
    if list.len() > 0 {
        lemma_index_of_none(list.drop_first(), x);
    }
}

/// The first position of `x` in `list`.
pub fn find_str(list: &Vec<&str>, x: &str) -> (r: Option<usize>)
    ensures
        match index_of(str_views(list@), x@) {
            Some(i) => r == Some(i as usize),
            None => r is None,
        },
        r matches Some(i) ==> i < list.len(),
        index_of(str_views(list@), x@) matches Some(i) ==> 0 <= i < list.len(),
{
    proof { lemma_index_of_bounds(str_views(list@), x@); }
    let ghost views = str_views(list@);
    for i in 0..list.len()
        invariant
            views == str_views(list@),
            forall|k: int| 0 <= k < i ==> views[k] != x@,
    {
        if str_eq(list[i], x) {
            proof { lemma_index_of_prefix(views, x@, i as int); }
            return Some(i);
        }
    }
    proof { lemma_index_of_none(views, x@); }
    None
}

/// The first position of `x` in `list`.
pub fn find_string(list: &Vec<String>, x: &str) -> (r: Option<usize>)
    ensures
        match index_of(string_views(list@), x@) {
            Some(i) => r == Some(i as usize),
            None => r is None,
        },
        r matches Some(i) ==> i < list.len(),
        index_of(string_views(list@), x@) matches Some(i) ==> 0 <= i < list.len(),
{
    proof { lemma_index_of_bounds(string_views(list@), x@); }
    let ghost views = string_views(list@);
    for i in 0..list.len()
        invariant
            views == string_views(list@),
            forall|k: int| 0 <= k < i ==> views[k] != x@,
    {
        if str_eq(list[i].as_str(), x) {
            proof { lemma_index_of_prefix(views, x@, i as int); }
            return Some(i);
        }
    }
    proof { lemma_index_of_none(views, x@); }
    None
}

/// The characters of `v` from position `n` on.
pub fn tail_from(v: &Vec<char>, n: usize) -> (r: Vec<char>)
    requires
        n <= v.len(),
    ensures
        r@ == v@.skip(n as int),
{
    let mut r: Vec<char> = Vec::new();
    let mut i = n;
    while i < v.len()
        invariant
            n <= i <= v.len(),
            r@ == v@.subrange(n as int, i as int),
        decreases v.len() - i,
    {
        r.push(v[i]);
        assert(v@.subrange(n as int, i + 1) =~= v@.subrange(n as int, i as int).push(v@[i as int]));
        i = i + 1;
    }
    assert(v@.subrange(n as int, v.len() as int) =~= v@.skip(n as int));
    r
}

/// No text occurs twice in `list`.
pub open spec fn all_distinct(list: Seq<Seq<char>>) -> bool {
    forall|i: int, j: int| 0 <= i < j < list.len() ==> list[i] != list[j]
}

/// In a list without repetitions, each entry is found at its own position.
pub proof fn lemma_index_of_distinct(list: Seq<Seq<char>>, i: int)
    requires
        all_distinct(list),
        0 <= i < list.len(),
    ensures
        index_of(list, list[i]) == Some(i),
{
    lemma_index_of_prefix(list, list[i], i);
}

/// Texts that differ in some computed tag differ; so a list whose entries
/// all have different tags has no repetitions.
pub proof fn lemma_distinct_by_tag(list: Seq<Seq<char>>, tag: spec_fn(Seq<char>) -> int)
    requires
        forall|i: int, j: int| 0 <= i < j < list.len() ==> tag(list[i]) != tag(list[j]),
    ensures
        all_distinct(list),
{
}

} // verus!
