//! The Whisper models that can be downloaded.
use crate::chars::{
    all_distinct, chars_of, contains, has_infix, index_of, lemma_distinct_by_tag, str_eq,
};
use vstd::prelude::*;
use vstd::string::StringExecFns;

verus! {

/// A downloadable Whisper model.
#[derive(Clone, Copy)]
pub struct Model {
    /// File name of the model, also its identifier.
    pub id: &'static str,
    /// Name shown to the user.
    pub name: &'static str,
    /// Download size shown to the user.
    pub size: &'static str,
    /// Where the model is downloaded from.
    pub url: &'static str,
}

/// A model as plain text: id, name, size and URL.
pub type ModelView = (Seq<char>, Seq<char>, Seq<char>, Seq<char>);

impl View for Model {
    type V = ModelView;

    open spec fn view(&self) -> ModelView {
        (self.id@, self.name@, self.size@, self.url@)
    }
}

/// The model used when none is chosen yet.
pub open spec fn default_model_id() -> Seq<char> {
    "ggml-base.en.bin"@
}

/// The identifier of the model used when none is chosen yet.
pub fn default_model() -> (id: &'static str)
    ensures
        id@ == default_model_id(),
{
    "ggml-base.en.bin"
}

pub open spec fn model_entry(id: &str, name: &str, size: &str, url: &str) -> ModelView {
    (id@, name@, size@, url@)
}

/// The models on offer, smallest first.
pub open spec fn catalog() -> Seq<ModelView> {
    seq![
        model_entry("ggml-tiny.en.bin", "Tiny (EN)", "78 MB",
            "https://huggingface.co/ggerganov/whisper.cpp/resolve/main/ggml-tiny.en.bin"),
        model_entry("ggml-tiny.bin", "Tiny", "78 MB",
            "https://huggingface.co/ggerganov/whisper.cpp/resolve/main/ggml-tiny.bin"),
        model_entry("ggml-base.en.bin", "Base (EN)", "148 MB",
            "https://huggingface.co/ggerganov/whisper.cpp/resolve/main/ggml-base.en.bin"),
        model_entry("ggml-base.bin", "Base", "148 MB",
            "https://huggingface.co/ggerganov/whisper.cpp/resolve/main/ggml-base.bin"),
        model_entry("ggml-small.en.bin", "Small (EN)", "488 MB",
            "https://huggingface.co/ggerganov/whisper.cpp/resolve/main/ggml-small.en.bin"),
        model_entry("ggml-small.bin", "Small", "488 MB",
            "https://huggingface.co/ggerganov/whisper.cpp/resolve/main/ggml-small.bin"),
        model_entry("ggml-medium.en.bin", "Medium (EN)", "1.53 GB",
            "https://huggingface.co/ggerganov/whisper.cpp/resolve/main/ggml-medium.en.bin"),
        model_entry("ggml-medium.bin", "Medium", "1.53 GB",
            "https://huggingface.co/ggerganov/whisper.cpp/resolve/main/ggml-medium.bin"),
        model_entry("ggml-large-v1.bin", "Large v1", "3.09 GB",
            "https://huggingface.co/ggerganov/whisper.cpp/resolve/main/ggml-large-v1.bin"),
        model_entry("ggml-large-v2.bin", "Large v2", "3.09 GB",
            "https://huggingface.co/ggerganov/whisper.cpp/resolve/main/ggml-large-v2.bin"),
        model_entry("ggml-large-v3.bin", "Large v3", "3.1 GB",
            "https://huggingface.co/ggerganov/whisper.cpp/resolve/main/ggml-large-v3.bin"),
        model_entry("ggml-large-v3-turbo.bin", "Large v3 Turbo", "1.62 GB",
            "https://huggingface.co/ggerganov/whisper.cpp/resolve/main/ggml-large-v3-turbo.bin"),
    ]
}

pub open spec fn model_views(ms: Seq<Model>) -> Seq<ModelView> {
    ms.map_values(|m: Model| m@)
}

/// The models on offer.
pub fn models() -> (ms: Vec<Model>)
    ensures
        model_views(ms@) == catalog(),
{
    let ms = vec![
        Model {
            id: "ggml-tiny.en.bin",
            name: "Tiny (EN)",
            size: "78 MB",
            url: "https://huggingface.co/ggerganov/whisper.cpp/resolve/main/ggml-tiny.en.bin",
        },
        Model {
            id: "ggml-tiny.bin",
            name: "Tiny",
            size: "78 MB",
            url: "https://huggingface.co/ggerganov/whisper.cpp/resolve/main/ggml-tiny.bin",
        },
        Model {
            id: "ggml-base.en.bin",
            name: "Base (EN)",
            size: "148 MB",
            url: "https://huggingface.co/ggerganov/whisper.cpp/resolve/main/ggml-base.en.bin",
        },
        Model {
            id: "ggml-base.bin",
            name: "Base",
            size: "148 MB",
            url: "https://huggingface.co/ggerganov/whisper.cpp/resolve/main/ggml-base.bin",
        },
        Model {
            id: "ggml-small.en.bin",
            name: "Small (EN)",
            size: "488 MB",
            url: "https://huggingface.co/ggerganov/whisper.cpp/resolve/main/ggml-small.en.bin",
        },
        Model {
            id: "ggml-small.bin",
            name: "Small",
            size: "488 MB",
            url: "https://huggingface.co/ggerganov/whisper.cpp/resolve/main/ggml-small.bin",
        },
        Model {
            id: "ggml-medium.en.bin",
            name: "Medium (EN)",
            size: "1.53 GB",
            url: "https://huggingface.co/ggerganov/whisper.cpp/resolve/main/ggml-medium.en.bin",
        },
        Model {
            id: "ggml-medium.bin",
            name: "Medium",
            size: "1.53 GB",
            url: "https://huggingface.co/ggerganov/whisper.cpp/resolve/main/ggml-medium.bin",
        },
        Model {
            id: "ggml-large-v1.bin",
            name: "Large v1",
            size: "3.09 GB",
            url: "https://huggingface.co/ggerganov/whisper.cpp/resolve/main/ggml-large-v1.bin",
        },
        Model {
            id: "ggml-large-v2.bin",
            name: "Large v2",
            size: "3.09 GB",
            url: "https://huggingface.co/ggerganov/whisper.cpp/resolve/main/ggml-large-v2.bin",
        },
        Model {
            id: "ggml-large-v3.bin",
            name: "Large v3",
            size: "3.1 GB",
            url: "https://huggingface.co/ggerganov/whisper.cpp/resolve/main/ggml-large-v3.bin",
        },
        Model {
            id: "ggml-large-v3-turbo.bin",
            name: "Large v3 Turbo",
            size: "1.62 GB",
            url: "https://huggingface.co/ggerganov/whisper.cpp/resolve/main/ggml-large-v3-turbo.bin",
        },
    ];
    assert(model_views(ms@) =~= catalog());
    ms
}

/// The position of the first model of `ms` whose id is `id`.
pub open spec fn first_with_id(ms: Seq<ModelView>, id: Seq<char>) -> Option<int>
    decreases ms.len(),
{
    if ms.len() == 0 {
        None
    } else if ms.last().0 == id && first_with_id(ms.drop_last(), id) is None {
        Some(ms.len() - 1)
    } else {
        first_with_id(ms.drop_last(), id)
    }
}

/// The position in `ms` of the model `id`, or 0 when it is not there (the
/// entry selected in the model list).
pub fn model_index(ms: &Vec<Model>, id: &str) -> (idx: usize)
    ensures
        idx == (match first_with_id(model_views(ms@), id@) {
            Some(i) => i,
            None => 0,
        }),
{
    let ghost views = model_views(ms@);
    for i in 0..ms.len()
        invariant
            views == model_views(ms@),
            first_with_id(views.take(i as int), id@) is None,
    {
        assert(views.take(i + 1).drop_last() =~= views.take(i as int));
        if str_eq(ms[i].id, id) {
            proof { lemma_first_prefix(views, id@, i as int + 1); }
            return i;
        }
    }
    assert(views.take(ms.len() as int) =~= views);
    0
}

proof fn lemma_first_prefix(ms: Seq<ModelView>, id: Seq<char>, n: int)
    requires
        0 <= n <= ms.len(),
        first_with_id(ms.take(n), id) is Some,
    ensures
        first_with_id(ms, id) == first_with_id(ms.take(n), id),
    decreases ms.len() - n,
{
    if n < ms.len() {
        assert(ms.take(n + 1).drop_last() =~= ms.take(n));
        lemma_first_prefix(ms, id, n + 1);
    } else {
        assert(ms.take(n) =~= ms);
    }
}

/// The models of `ms` that are marked as downloaded in `downloaded`, in order.
pub open spec fn keep_marked(ms: Seq<ModelView>, downloaded: Seq<bool>) -> Seq<ModelView>
    decreases ms.len(),
{
    if ms.len() == 0 || downloaded.len() != ms.len() {
        seq![]
    } else {
        let rest = keep_marked(ms.drop_last(), downloaded.drop_last());
        if downloaded.last() {
            rest.push(ms.last())
        } else {
            rest
        }
    }
}

/// How many of the flags are set.
pub open spec fn marked_count(flags: Seq<bool>) -> nat
    decreases flags.len(),
{
    if flags.len() == 0 {
        0
    } else {
        marked_count(flags.drop_last()) + if flags.last() {
            1nat
        } else {
            0nat
        }
    }
}

/// Whether `m` is one of the models of `ms` that are marked.
pub open spec fn is_marked(ms: Seq<ModelView>, downloaded: Seq<bool>, m: ModelView) -> bool {
    exists|i: int| 0 <= i < ms.len() && #[trigger] downloaded[i] && ms[i] == m
}

/// The downloaded models are exactly the marked ones: as many as there are
/// marks, each marked model among them (the first of the list as well as
/// any other), and nothing else.
pub proof fn lemma_keep_marked_keeps_each_marked(ms: Seq<ModelView>, downloaded: Seq<bool>)
    requires
        ms.len() == downloaded.len(),
    ensures
        keep_marked(ms, downloaded).len() == marked_count(downloaded),
        forall|i: int|
            0 <= i < ms.len() && #[trigger] downloaded[i] ==> keep_marked(ms, downloaded).contains(ms[i]),
        forall|j: int|
            0 <= j < keep_marked(ms, downloaded).len() ==> is_marked(
                ms,
                downloaded,
                #[trigger] keep_marked(ms, downloaded)[j],
            ),
    decreases ms.len(),
{
    if ms.len() > 0 {
        let ms2 = ms.drop_last();
        let d2 = downloaded.drop_last();
        let rest = keep_marked(ms2, d2);
        let r = keep_marked(ms, downloaded);
        let n = ms.len() - 1;
        lemma_keep_marked_keeps_each_marked(ms2, d2);
        assert forall|i: int| 0 <= i < ms.len() && #[trigger] downloaded[i] implies r.contains(ms[i]) by {
            if i < n {
                assert(d2[i] == downloaded[i]);
                assert(ms2[i] == ms[i]);
                assert(rest.contains(ms2[i]));
                let k = choose|k: int| 0 <= k < rest.len() && rest[k] == ms2[i];
                if downloaded.last() {
                    assert(r[k] == rest[k]);
                }
                assert(r[k] == ms[i]);
            } else {
                assert(r[r.len() - 1] == ms[i]);
            }
        }
        assert forall|j: int| 0 <= j < r.len() implies is_marked(ms, downloaded, #[trigger] r[j]) by {
            if j < rest.len() {
                assert(r[j] == rest[j]);
                assert(is_marked(ms2, d2, rest[j]));
                let i = choose|i: int| 0 <= i < ms2.len() && #[trigger] d2[i] && ms2[i] == rest[j];
                assert(downloaded[i] == d2[i]);
                assert(ms[i] == ms2[i]);
            } else {
                assert(downloaded[n]);
                assert(r[j] == ms[n]);
            }
        }
    }
}

/// The models whose file is present; `downloaded[i]` tells whether the file
/// of `ms[i]` is.
pub fn downloaded_models(ms: &Vec<Model>, downloaded: &Vec<bool>) -> (r: Vec<Model>)
    requires
        ms.len() == downloaded.len(),
    ensures
        model_views(r@) == keep_marked(model_views(ms@), downloaded@),
{
    let ghost views = model_views(ms@);
    let mut r: Vec<Model> = Vec::new();
    for i in 0..ms.len()
        invariant
            ms.len() == downloaded.len(),
            views == model_views(ms@),
            model_views(r@) == keep_marked(views.take(i as int), downloaded@.take(i as int)),
    {
        assert(views.take(i + 1).drop_last() =~= views.take(i as int));
        assert(downloaded@.take(i + 1).drop_last() =~= downloaded@.take(i as int));
        if downloaded[i] {
            r.push(ms[i]);
        }
        assert(model_views(r@) =~= keep_marked(views.take(i + 1), downloaded@.take(i + 1)));
    }
    assert(views.take(ms.len() as int) =~= views);
    assert(downloaded@.take(ms.len() as int) =~= downloaded@);
    r
}

/// Whether a model is English-only (its id holds `.en`).
pub fn is_english_only(model_id: &str) -> (r: bool)
    ensures
        r == has_infix(model_id@, ".en"@),
{
    contains(model_id, ".en")
}

/// The name of the file that a download is written to before it is complete.
pub fn partial_file_name(model_id: &str) -> (r: String)
    ensures
        r@ == model_id@ + ".part"@,
{
    let mut r = String::from_str(model_id);
    r.append(".part");
    r
}

/// Whether the model `model_id` may be deleted while `current` is selected:
/// the selected model may not.
pub fn can_delete_model(current: &str, model_id: &str) -> (r: bool)
    ensures
        r == (current@ != model_id@),
{
    !str_eq(current, model_id)
}

pub open spec fn catalog_ids() -> Seq<Seq<char>> {
    catalog().map_values(|m: ModelView| m.0)
}

/// No two models of the catalog share an id, so a stored id names one model.
pub proof fn lemma_model_ids_distinct()
    ensures
        all_distinct(catalog_ids()),
{
    reveal_strlit("ggml-tiny.en.bin");
    reveal_strlit("ggml-tiny.bin");
    reveal_strlit("ggml-base.en.bin");
    reveal_strlit("ggml-base.bin");
    reveal_strlit("ggml-small.en.bin");
    reveal_strlit("ggml-small.bin");
    reveal_strlit("ggml-medium.en.bin");
    reveal_strlit("ggml-medium.bin");
    reveal_strlit("ggml-large-v1.bin");
    reveal_strlit("ggml-large-v2.bin");
    reveal_strlit("ggml-large-v3.bin");
    reveal_strlit("ggml-large-v3-turbo.bin");
    lemma_distinct_by_tag(
        catalog_ids(),
        |s: Seq<char>| s.len() * 65536 + (s[5] as int) * 256 + (s[s.len() - 5] as int),
    );
}

/// The default model is one of the models on offer.
pub proof fn lemma_default_model_offered()
    ensures
        index_of(catalog_ids(), default_model_id()) == Some(2int),
{
    lemma_model_ids_distinct();
    crate::chars::lemma_index_of_distinct(catalog_ids(), 2);
}

// ---------------------------------------------------------------------------
// Download size
// ---------------------------------------------------------------------------
pub open spec fn is_digit(c: char) -> bool {
    '0' <= c <= '9'
}

/// The number written by the decimal digits `s`.
pub open spec fn digits_value(s: Seq<char>) -> nat
    decreases s.len(),
{
    if s.len() == 0 {
        0
    } else {
        digits_value(s.drop_last()) * 10 + ((s.last() as u32) - 48) as nat
    }
}

/// `s` without a leading `+`.
pub open spec fn without_plus(s: Seq<char>) -> Seq<char> {
    if s.len() > 0 && s[0] == '+' {
        s.drop_first()
    } else {
        s
    }
}

pub open spec fn all_digits(s: Seq<char>) -> bool {
    forall|i: int| 0 <= i < s.len() ==> is_digit(#[trigger] s[i])
}

/// What `u64::from_str` accepts: an optional `+` and at least one decimal
/// digit, for a value that fits in 64 bits.
pub open spec fn parsed_u64(s: Seq<char>) -> Option<nat> {
    let body = without_plus(s);
    if body.len() > 0 && all_digits(body) && digits_value(body) <= u64::MAX {
        Some(digits_value(body))
    } else {
        None
    }
}

/// The size announced by a `Content-Length` header value: the number it
/// holds, or 0 when it is not a number that fits in 64 bits (the size is then
/// unknown).
pub fn content_length(value: &str) -> (n: u64)
    ensures
        n == (match parsed_u64(value@) {
            Some(v) => v,
            None => 0,
        }),
{
    let cs = chars_of(value);
    let start: usize = if cs.len() > 0 && cs[0] == '+' { 1 } else { 0 };
    let ghost body = without_plus(cs@);
    assert(body =~= cs@.skip(start as int));
    if start >= cs.len() {
        return 0;
    }
    let mut v: u64 = 0;
    let mut i = start;
    while i < cs.len()
        invariant
            start <= i <= cs.len(),
            start < cs.len(),
            cs@ == value@,
            body == without_plus(value@),
            body == cs@.skip(start as int),
            v as nat == digits_value(cs@.subrange(start as int, i as int)),
            forall|k: int| start <= k < i ==> is_digit(#[trigger] cs@[k]),
        decreases cs.len() - i,
    {
        let c = cs[i];
        assert(cs@.subrange(start as int, i + 1).drop_last() =~= cs@.subrange(start as int, i as int));
        if c < '0' || c > '9' {
            assert(body[i - start] == cs@[i as int]);
            assert(!is_digit(body[i - start]));
            return 0;
        }
        let d: u64 = (c as u32 - 48) as u64;
        if v > (u64::MAX - d) / 10 {
            proof {
                let rest = cs@.subrange(start as int, i + 1);
                assert(digits_value(rest) == v * 10 + d);
                assert(v * 10 + d > u64::MAX) by (nonlinear_arith)
                    requires
                        v > (u64::MAX - d) / 10,
                        d <= 9,
                ;
                assert(body.take(rest.len() as int) =~= rest);
                if all_digits(body) {
                    lemma_digits_value_prefix(body, rest.len() as int);
                }
            }
            return 0;
        }
        assert(v * 10 + d <= u64::MAX) by (nonlinear_arith)
            requires
                v <= (u64::MAX - d) / 10,
                d <= 9,
        ;
        v = v * 10 + d;
        i = i + 1;
    }
    assert(cs@.subrange(start as int, cs.len() as int) =~= body);
    v
}

/// A number never shrinks when digits are added behind it.
proof fn lemma_digits_value_prefix(s: Seq<char>, k: int)
    requires
        0 <= k <= s.len(),
        all_digits(s),
    ensures
        digits_value(s.take(k)) <= digits_value(s),
    decreases s.len() - k,
{
    if k < s.len() {
        lemma_digits_value_prefix(s, k + 1);
        assert(s.take(k + 1).drop_last() =~= s.take(k));
        assert(is_digit(s[k]));
    } else {
        assert(s.take(k) =~= s);
    }
}

} // verus!
