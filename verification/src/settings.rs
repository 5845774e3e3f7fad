//! The user's settings, their defaults, how they are stored and how the
//! control panel's choices map onto them.
use crate::chars::{
    all_distinct, find_str, find_string, has_infix, index_of, lemma_distinct_by_tag,
    lemma_index_of_distinct, str_eq, str_views, string_views,
};
use crate::hotkey::{str_to_uppercase, unicode_str_uppercase};
use crate::models::{default_model, default_model_id, is_english_only};
use vstd::prelude::*;
use vstd::string::StringExecFns;

verus! {

/// The settings kept in `settings.ini`.
pub struct Settings {
    /// Id of the Whisper model.
    pub model: String,
    /// Name of the input device; `None` for the default device.
    pub device: Option<String>,
    /// Language code, or `auto`.
    pub language: String,
    /// Activation mode: `signal` (toggle) or `evdev` (push-to-talk).
    pub mode: String,
    /// Hotkey of the push-to-talk mode.
    pub hotkey: String,
}

/// Settings as text: model, device, language, mode, hotkey.
pub type SettingsView = (Seq<char>, Option<Seq<char>>, Seq<char>, Seq<char>, Seq<char>);

pub open spec fn opt_view(o: Option<String>) -> Option<Seq<char>> {
    match o {
        Some(s) => Some(s@),
        None => None,
    }
}

impl View for Settings {
    type V = SettingsView;

    open spec fn view(&self) -> SettingsView {
        (self.model@, opt_view(self.device), self.language@, self.mode@, self.hotkey@)
    }
}

pub open spec fn default_language() -> Seq<char> {
    "en"@
}

pub open spec fn default_mode() -> Seq<char> {
    "signal"@
}

pub open spec fn default_hotkey() -> Seq<char> {
    "INSERT"@
}

/// The settings used when none are stored.
pub open spec fn default_view() -> SettingsView {
    (default_model_id(), None, default_language(), default_mode(), default_hotkey())
}

/// The settings used when none are stored: the Base (EN) model, the default
/// input device, English, toggle mode and the Insert key.
pub fn default_settings() -> (s: Settings)
    ensures
        s@ == default_view(),
{
    Settings {
        model: String::from_str(default_model()),
        device: None,
        language: String::from_str("en"),
        mode: String::from_str("signal"),
        hotkey: String::from_str("INSERT"),
    }
}

pub open spec fn or_default(o: Option<Seq<char>>, d: Seq<char>) -> Seq<char> {
    match o {
        Some(v) => v,
        None => d,
    }
}

fn value_or(o: Option<String>, d: &str) -> (r: String)
    ensures
        r@ == or_default(opt_view(o), d@),
{
    match o {
        Some(v) => v,
        None => String::from_str(d),
    }
}

/// The model that stored settings ask for: the stored one, or the default.
pub fn requested_model(stored: Option<String>) -> (r: String)
    ensures
        r@ == or_default(opt_view(stored), default_model_id()),
{
    value_or(stored, default_model())
}

/// The settings built from stored values.
pub open spec fn settings_from_stored_view(
    model: Option<Seq<char>>,
    model_present: bool,
    device: Option<Seq<char>>,
    language: Option<Seq<char>>,
    mode: Option<Seq<char>>,
    hotkey: Option<Seq<char>>,
) -> SettingsView {
    (
        if model_present {
            or_default(model, default_model_id())
        } else {
            default_model_id()
        },
        device,
        or_default(language, default_language()),
        or_default(mode, default_mode()),
        or_default(hotkey, default_hotkey()),
    )
}

/// Builds the settings from the values read from `settings.ini`; a value that
/// is missing takes its default. `model_present` tells whether the file of
/// the requested model (see `requested_model`) is downloaded; if it is not,
/// the default model is used.
pub fn settings_from_stored(
    model: Option<String>,
    model_present: bool,
    device: Option<String>,
    language: Option<String>,
    mode: Option<String>,
    hotkey: Option<String>,
) -> (s: Settings)
    ensures
        s@ == settings_from_stored_view(
            opt_view(model),
            model_present,
            opt_view(device),
            opt_view(language),
            opt_view(mode),
            opt_view(hotkey),
        ),
{
    let model = if model_present {
        requested_model(model)
    } else {
        String::from_str(default_model())
    };
    Settings {
        model,
        device,
        language: value_or(language, "en"),
        mode: value_or(mode, "signal"),
        hotkey: value_or(hotkey, "INSERT"),
    }
}

/// The key/value pairs written to `settings.ini` for `s`: the device only
/// when one is chosen.
pub open spec fn stored_entries(s: SettingsView) -> Seq<(Seq<char>, Seq<char>)> {
    let head = seq![("model"@, s.0)];
    let dev = match s.1 {
        Some(d) => seq![("device"@, d)],
        None => seq![],
    };
    head + dev + seq![("language"@, s.2), ("mode"@, s.3), ("hotkey"@, s.4)]
}

pub open spec fn entry_views(es: Seq<(&'static str, String)>) -> Seq<(Seq<char>, Seq<char>)> {
    es.map_values(|e: (&'static str, String)| (e.0@, e.1@))
}

/// The key/value pairs to write to the `sotto` group of `settings.ini`.
pub fn settings_entries(s: &Settings) -> (es: Vec<(&'static str, String)>)
    ensures
        entry_views(es@) == stored_entries(s@),
{
    let mut es: Vec<(&'static str, String)> = Vec::new();
    es.push(("model", s.model.clone()));
    match &s.device {
        Some(d) => es.push(("device", d.clone())),
        None => {},
    }
    es.push(("language", s.language.clone()));
    es.push(("mode", s.mode.clone()));
    es.push(("hotkey", s.hotkey.clone()));
    assert(entry_views(es@) =~= stored_entries(s@));
    es
}

/// The value stored under `key` (the first such entry).
pub open spec fn lookup(es: Seq<(Seq<char>, Seq<char>)>, key: Seq<char>) -> Option<Seq<char>>
    decreases es.len(),
{
    if es.len() == 0 {
        None
    } else if es[0].0 == key {
        Some(es[0].1)
    } else {
        lookup(es.drop_first(), key)
    }
}

/// Settings survive being written and read back, as long as the model that
/// they name is downloaded.
pub proof fn lemma_settings_round_trip(s: SettingsView)
    ensures
        ({
            let es = stored_entries(s);
            settings_from_stored_view(
                lookup(es, "model"@),
                true,
                lookup(es, "device"@),
                lookup(es, "language"@),
                lookup(es, "mode"@),
                lookup(es, "hotkey"@),
            ) == s
        }),
{
    reveal_strlit("model");
    reveal_strlit("device");
    reveal_strlit("language");
    reveal_strlit("mode");
    reveal_strlit("hotkey");
    reveal_with_fuel(lookup, 6);
    let keys = seq!["model"@, "device"@, "language"@, "mode"@, "hotkey"@];
    lemma_distinct_by_tag(keys, |k: Seq<char>| k.len() * 256 + (k[0] as int));
    assert(keys[0] != keys[1] && keys[0] != keys[2] && keys[0] != keys[3] && keys[0] != keys[4]);
    assert(keys[1] != keys[2] && keys[1] != keys[3] && keys[1] != keys[4]);
    assert(keys[2] != keys[3] && keys[2] != keys[4] && keys[3] != keys[4]);
    let es = stored_entries(s);
    match s.1 {
        Some(d) => {
            assert(es =~= seq![("model"@, s.0), ("device"@, d), ("language"@, s.2), ("mode"@, s.3), ("hotkey"@, s.4)]);
        },
        None => {
            assert(es =~= seq![("model"@, s.0), ("language"@, s.2), ("mode"@, s.3), ("hotkey"@, s.4)]);
        },
    }
}

// ---------------------------------------------------------------------------
// What the daemon takes from the settings
// ---------------------------------------------------------------------------
/// The language to transcribe in: English for an English-only model, else
/// the chosen language.
pub open spec fn transcription_language(s: SettingsView) -> Seq<char> {
    if has_infix(s.0, ".en"@) {
        "en"@
    } else {
        s.2
    }
}

/// The language the daemon transcribes in.
pub fn daemon_language(s: &Settings) -> (r: String)
    ensures
        r@ == transcription_language(s@),
{
    if is_english_only(s.model.as_str()) {
        String::from_str("en")
    } else {
        s.language.clone()
    }
}

/// The daemon transcribes in the chosen language for every model that is not
/// English-only, `auto` (detection by Whisper) included, and in English for
/// an English-only model, whatever language was chosen.
pub proof fn lemma_chosen_language_kept(s: SettingsView)
    ensures
        !has_infix(s.0, ".en"@) ==> transcription_language(s) == s.2,
        !has_infix(s.0, ".en"@) && s.2 == "auto"@ ==> transcription_language(s) == "auto"@,
        has_infix(s.0, ".en"@) ==> transcription_language(s) == "en"@,
        forall|l: Seq<char>|
            #![trigger transcription_language((s.0, s.1, l, s.3, s.4))]
            !has_infix(s.0, ".en"@) ==> (transcription_language((s.0, s.1, l, s.3, s.4))
                == transcription_language(s) <==> l == s.2),
{
}

/// Whether the mode is push-to-talk (`evdev`) rather than toggle.
pub fn uses_push_to_talk(mode: &str) -> (r: bool)
    ensures
        r == (mode@ == "evdev"@),
{
    str_eq(mode, "evdev")
}

// ---------------------------------------------------------------------------
// The control panel's choices
// ---------------------------------------------------------------------------
/// The languages offered: code and name.
pub open spec fn language_table() -> Seq<(Seq<char>, Seq<char>)> {
    seq![
        ("auto"@, "Auto"@),
        ("de"@, "German"@),
        ("en"@, "English"@),
        ("es"@, "Spanish"@),
        ("fr"@, "French"@),
        ("it"@, "Italian"@),
        ("ja"@, "Japanese"@),
        ("ko"@, "Korean"@),
        ("nl"@, "Dutch"@),
        ("pl"@, "Polish"@),
        ("pt"@, "Portuguese"@),
        ("ru"@, "Russian"@),
        ("zh"@, "Chinese"@),
    ]
}

pub open spec fn pair_views(ps: Seq<(&'static str, &'static str)>) -> Seq<(Seq<char>, Seq<char>)> {
    ps.map_values(|p: (&'static str, &'static str)| (p.0@, p.1@))
}

/// The languages offered: code and name.
pub fn languages() -> (ls: Vec<(&'static str, &'static str)>)
    ensures
        pair_views(ls@) == language_table(),
{
    let ls = vec![
        ("auto", "Auto"),
        ("de", "German"),
        ("en", "English"),
        ("es", "Spanish"),
        ("fr", "French"),
        ("it", "Italian"),
        ("ja", "Japanese"),
        ("ko", "Korean"),
        ("nl", "Dutch"),
        ("pl", "Polish"),
        ("pt", "Portuguese"),
        ("ru", "Russian"),
        ("zh", "Chinese"),
    ];
    assert(pair_views(ls@) =~= language_table());
    ls
}

pub open spec fn language_codes() -> Seq<Seq<char>> {
    language_table().map_values(|p: (Seq<char>, Seq<char>)| p.0)
}

/// The entry of the language list to select for `code`: its position, or
/// English when the code is not offered.
pub fn language_index(code: &str) -> (idx: usize)
    ensures
        idx == (match index_of(language_codes(), code@) {
            Some(i) => i,
            None => 2,
        }),
{
    let codes = vec!["auto", "de", "en", "es", "fr", "it", "ja", "ko", "nl", "pl", "pt", "ru", "zh"];
    assert(str_views(codes@) =~= language_codes());
    match find_str(&codes, code) {
        Some(i) => i,
        None => 2,
    }
}

/// The language code of entry `idx` of the language list.
pub fn language_at(idx: usize) -> (r: Option<&'static str>)
    ensures
        idx < language_codes().len() ==> (r matches Some(c) && c@ == language_codes()[idx as int]),
        idx >= language_codes().len() ==> r is None,
{
    let ls = languages();
    if idx < ls.len() {
        Some(ls[idx].0)
    } else {
        None
    }
}

/// The entry of the mode list to select: push-to-talk for `evdev`, else toggle.
pub fn mode_index(mode: &str) -> (idx: u32)
    ensures
        idx == (if mode@ == "evdev"@ { 1u32 } else { 0u32 }),
{
    if uses_push_to_talk(mode) {
        1
    } else {
        0
    }
}

/// The mode stored for entry `idx` of the mode list.
pub fn mode_for_index(idx: u32) -> (mode: &'static str)
    ensures
        mode@ == (if idx == 1 { "evdev"@ } else { "signal"@ }),
{
    if idx == 1 {
        "evdev"
    } else {
        "signal"
    }
}

/// The hotkeys offered in the list; the entry after them is "Custom...".
pub open spec fn hotkey_presets() -> Seq<Seq<char>> {
    seq![
        "INSERT"@,
        "SCROLLLOCK"@,
        "PAUSE"@,
        "F13"@,
        "F14"@,
        "F15"@,
        "F16"@,
        "RIGHTALT"@,
    ]
}

/// The hotkeys offered in the list.
pub fn hotkey_choices() -> (ks: Vec<&'static str>)
    ensures
        str_views(ks@) == hotkey_presets(),
{
    let ks = vec!["INSERT", "SCROLLLOCK", "PAUSE", "F13", "F14", "F15", "F16", "RIGHTALT"];
    assert(str_views(ks@) =~= hotkey_presets());
    ks
}

/// The entry of the hotkey list to select for a hotkey that upper-cases to
/// `upper`: its position among the presets, or the custom entry.
pub fn preset_index(upper: &str) -> (idx: usize)
    ensures
        idx == (match index_of(hotkey_presets(), upper@) {
            Some(i) => i,
            None => hotkey_presets().len() as int,
        }),
{
    let ks = hotkey_choices();
    assert(str_views(ks@).len() == ks@.len());
    match find_str(&ks, upper) {
        Some(i) => i,
        None => ks.len(),
    }
}

/// The entry of the hotkey list to select for the stored hotkey.
pub fn hotkey_index(hotkey: &str) -> (idx: usize)
    ensures
        idx == (match index_of(hotkey_presets(), unicode_str_uppercase(hotkey@)) {
            Some(i) => i,
            None => hotkey_presets().len() as int,
        }),
{
    let upper = str_to_uppercase(hotkey);
    preset_index(upper.as_str())
}

/// The hotkey stored for entry `idx` of the hotkey list; none for the
/// custom entry.
pub fn hotkey_for_index(idx: usize) -> (r: Option<&'static str>)
    ensures
        idx < hotkey_presets().len() ==> (r matches Some(k) && k@ == hotkey_presets()[idx as int]),
        idx >= hotkey_presets().len() ==> r is None,
{
    let ks = hotkey_choices();
    if idx < ks.len() {
        Some(ks[idx])
    } else {
        None
    }
}

/// The hotkey stored for the text `upper` of the custom entry once
/// upper-cased: none while it is empty.
pub fn custom_hotkey_from_upper(upper: String) -> (r: Option<String>)
    ensures
        upper@.len() == 0 ==> r is None,
        upper@.len() > 0 ==> r == Some(upper),
{
    if upper.as_str().is_empty() {
        None
    } else {
        Some(upper)
    }
}

/// The hotkey stored for the text of the custom entry: the text upper-cased,
/// unless that is empty.
pub fn custom_hotkey(text: &str) -> (r: Option<String>)
    ensures
        unicode_str_uppercase(text@).len() == 0 ==> r is None,
        unicode_str_uppercase(text@).len() > 0 ==> (r matches Some(k) && k@ == unicode_str_uppercase(text@)),
{
    custom_hotkey_from_upper(str_to_uppercase(text))
}

/// The entry of the device list to select: the default entry comes first,
/// then the devices of `names`.
pub fn device_index(current: &Option<String>, names: &Vec<String>) -> (idx: usize)
    ensures
        idx == (match current {
            Some(d) => match index_of(string_views(names@), d@) {
                Some(i) => i + 1,
                None => 0,
            },
            None => 0,
        }),
{
    match current {
        Some(d) => match find_string(names, d.as_str()) {
            Some(i) => {
                proof {
                    assert(string_views(names@).len() == names@.len());
                }
                i + 1
            },
            None => 0,
        },
        None => 0,
    }
}

/// What choosing entry `idx` of the device list does.
#[derive(Debug, Clone, Copy, PartialEq, Eq, Structural)]
pub enum DeviceChoice {
    /// The default device: no device is stored.
    Default,
    /// The device at this position of the device list (without the default entry).
    Device(usize),
    /// An entry past the end: the stored device stays.
    Unchanged,
}

/// What choosing entry `idx` of a device list with `count` devices does.
pub fn device_for_index(idx: usize, count: usize) -> (c: DeviceChoice)
    ensures
        c == (if idx == 0 {
            DeviceChoice::Default
        } else if idx - 1 < count {
            DeviceChoice::Device((idx - 1) as usize)
        } else {
            DeviceChoice::Unchanged
        }),
{
    if idx == 0 {
        DeviceChoice::Default
    } else if idx - 1 < count {
        DeviceChoice::Device(idx - 1)
    } else {
        DeviceChoice::Unchanged
    }
}

// ---------------------------------------------------------------------------
// Laws of the choices
// ---------------------------------------------------------------------------
/// Choosing a language in the list and opening the panel again selects the
/// same entry: the entry's code leads back to the entry.
pub proof fn lemma_language_choice_round_trip(i: int)
    requires
        0 <= i < language_codes().len(),
    ensures
        index_of(language_codes(), language_codes()[i]) == Some(i),
{
    reveal_strlit("auto");
    reveal_strlit("de");
    reveal_strlit("en");
    reveal_strlit("es");
    reveal_strlit("fr");
    reveal_strlit("it");
    reveal_strlit("ja");
    reveal_strlit("ko");
    reveal_strlit("nl");
    reveal_strlit("pl");
    reveal_strlit("pt");
    reveal_strlit("ru");
    reveal_strlit("zh");
    lemma_distinct_by_tag(language_codes(), |s: Seq<char>| s.len() * 65536 + (s[0] as int) * 256 + (s.last() as int));
    lemma_index_of_distinct(language_codes(), i);
}

/// Choosing a preset hotkey in the list and opening the panel again selects
/// the same entry (the presets are upper-case, so upper-casing the stored
/// name keeps it).
pub proof fn lemma_hotkey_choice_round_trip(i: int)
    requires
        0 <= i < hotkey_presets().len(),
    ensures
        index_of(hotkey_presets(), hotkey_presets()[i]) == Some(i),
{
    reveal_strlit("INSERT");
    reveal_strlit("SCROLLLOCK");
    reveal_strlit("PAUSE");
    reveal_strlit("F13");
    reveal_strlit("F14");
    reveal_strlit("F15");
    reveal_strlit("F16");
    reveal_strlit("RIGHTALT");
    lemma_distinct_by_tag(hotkey_presets(), |s: Seq<char>| s.len() * 65536 + (s[0] as int) * 256 + (s.last() as int));
    lemma_index_of_distinct(hotkey_presets(), i);
}

/// Choosing an activation mode and opening the panel again selects the same
/// entry.
pub proof fn lemma_mode_choice_round_trip(idx: u32)
    requires
        idx < 2,
    ensures
        (if (if idx == 1 { "evdev"@ } else { "signal"@ }) == "evdev"@ { 1u32 } else { 0u32 }) == idx,
{
    reveal_strlit("evdev");
    reveal_strlit("signal");
    assert("signal"@ != "evdev"@) by {
        assert("signal"@.len() != "evdev"@.len());
    }
}

/// Choosing an input device and opening the panel again selects the same
/// entry, when no two devices share a name.
pub proof fn lemma_device_choice_round_trip(names: Seq<Seq<char>>, i: int)
    requires
        all_distinct(names),
        0 <= i < names.len(),
    ensures
        index_of(names, names[i]) == Some(i),
{
    lemma_index_of_distinct(names, i);
}

} // verus!
