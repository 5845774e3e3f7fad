//! Push-to-talk hotkey: key names, the press/release tracker and the
//! bookkeeping of the keyboard devices being watched.
use crate::chars::{all_ascii, ascii_upper, chars_of, has_prefix, string_of};
use vstd::prelude::*;
use vstd::string::StringExecFns;

verus! {

/// What the hotkey listener reports.
#[derive(Debug, Clone, Copy, PartialEq, Eq, Structural)]
pub enum HotkeyEvent {
    Pressed,
    Released,
}

// ---------------------------------------------------------------------------
// Key names
// ---------------------------------------------------------------------------
/// What `str::to_uppercase` gives for `s` (Unicode upper-case mapping).
pub uninterp spec fn unicode_str_uppercase(s: Seq<char>) -> Seq<char>;

/// Calls `str::to_uppercase`. The result is named; for an ASCII string it is
/// the string with each ASCII lower-case letter upper-cased.
#[verifier::external_body]
pub(crate) fn str_to_uppercase(s: &str) -> (r: String)
    ensures
        r@ == unicode_str_uppercase(s@),
        all_ascii(s@) ==> r@ == s@.map_values(|c: char| ascii_upper(c)),
{
    s.to_uppercase()
}

pub open spec fn key_prefix() -> Seq<char> {
    seq!['K', 'E', 'Y', '_']
}

pub open spec fn underscore_separators(c: char) -> char {
    if c == '-' || c == ' ' {
        '_'
    } else {
        c
    }
}

/// The evdev key name for an upper-cased key name: dashes and spaces become
/// underscores and `KEY_` is put in front unless it is there already.
pub open spec fn evdev_key_name(upper: Seq<char>) -> Seq<char> {
    let t = upper.map_values(|c: char| underscore_separators(c));
    if t.len() >= 4 && t.take(4) == key_prefix() {
        t
    } else {
        key_prefix() + t
    }
}

/// The code of the evdev key constant called `name` (such as `KEY_F13`), as
/// `evdev::KeyCode::from_str` finds it in evdev's table of key names.
pub uninterp spec fn evdev_key_code(name: Seq<char>) -> Option<u16>;

/// Calls `evdev::KeyCode::from_str`, which looks `name` up among evdev's key
/// constant names, and gives the code of the key found. The result is named.
#[verifier::external_body]
fn evdev_key_from_name(name: &str) -> (r: Option<u16>)
    ensures
        r == evdev_key_code(name@),
{
    match <evdev::KeyCode as std::str::FromStr>::from_str(name) {
        Ok(k) => Some(k.code()),
        Err(_) => None,
    }
}

/// Short names accepted besides evdev's own key names.
pub open spec fn key_alias(name: Seq<char>) -> Option<u16> {
    if name == "KEY_BACKTICK"@ {
        Some(41)
    } else if name == "KEY_RALT"@ {
        Some(100)
    } else if name == "KEY_RCTRL"@ {
        Some(97)
    } else {
        None
    }
}

/// The message for a key name that is not known.
pub open spec fn unknown_key_message(name: Seq<char>) -> Seq<char> {
    "Unknown key: "@ + name + ". Try: SCROLLLOCK, PAUSE, F13-F24"@
}

/// The answer for `name` once it is upper-cased to `upper`.
pub open spec fn key_lookup(upper: Seq<char>, name: Seq<char>) -> Result<u16, Seq<char>> {
    let key = evdev_key_name(upper);
    let code = match key_alias(key) {
        Some(c) => Some(c),
        None => evdev_key_code(key),
    };
    key_result_view(code, name)
}

/// The answer for `name` once its key code, if any, is known.
pub open spec fn key_result_view(code: Option<u16>, name: Seq<char>) -> Result<u16, Seq<char>> {
    match code {
        Some(c) => Ok(c),
        None => Err(unknown_key_message(name)),
    }
}

pub open spec fn result_view(r: Result<u16, String>) -> Result<u16, Seq<char>> {
    match r {
        Ok(code) => Ok(code),
        Err(msg) => Err(msg@),
    }
}

fn same_text(s: &Vec<char>, lit: &str) -> (r: bool)
    ensures
        r == (s@ == lit@),
{
    let l = chars_of(lit);
    if s.len() != l.len() {
        return false;
    }
    for i in 0..s.len()
        invariant
            s.len() == l.len(),
            l@ == lit@,
            forall|j: int| 0 <= j < i ==> s@[j] == l@[j],
    {
        if s[i] != l[i] {
            return false;
        }
    }
    assert(s@ =~= l@);
    true
}

/// The evdev key name for an upper-cased key name.
pub fn evdev_name(upper: &str) -> (r: Vec<char>)
    ensures
        r@ == evdev_key_name(upper@),
{
    let cs = chars_of(upper);
    let mut t: Vec<char> = Vec::new();
    for i in 0..cs.len()
        invariant
            cs@ == upper@,
            t@ == cs@.take(i as int).map_values(|c: char| underscore_separators(c)),
    {
        let c = cs[i];
        if c == '-' || c == ' ' {
            t.push('_');
        } else {
            t.push(c);
        }
        assert(cs@.take(i + 1) =~= cs@.take(i as int).push(c));
        assert(t@ =~= cs@.take(i + 1).map_values(|c: char| underscore_separators(c)));
    }
    assert(cs@.take(cs.len() as int) =~= cs@);
    let ghost mapped = t@;
    assert(mapped == upper@.map_values(|c: char| underscore_separators(c)));
    if t.len() >= 4 && t[0] == 'K' && t[1] == 'E' && t[2] == 'Y' && t[3] == '_' {
        assert(t@.take(4) =~= key_prefix());
        t
    } else {
        assert(t@.len() >= 4 ==> t@.take(4) != key_prefix()) by {
            if t@.len() >= 4 && t@.take(4) == key_prefix() {
                assert(t@.take(4)[0] == t@[0]);
                assert(t@.take(4)[1] == t@[1]);
                assert(t@.take(4)[2] == t@[2]);
                assert(t@.take(4)[3] == t@[3]);
            }
        }
        let mut r: Vec<char> = vec!['K', 'E', 'Y', '_'];
        let mut j: usize = 0;
        let ghost pre = r@;
        assert(pre =~= key_prefix());
        while j < t.len()
            invariant
                j <= t.len(),
                r@ == pre + t@.take(j as int),
            decreases t.len() - j,
        {
            assert(t@.take(j + 1) =~= t@.take(j as int).push(t@[j as int]));
            r.push(t[j]);
            j = j + 1;
        }
        assert(t@.take(t.len() as int) =~= t@);
        r
    }
}

/// Every key name gets the `KEY_` prefix, whatever its length: the evdev
/// name is the upper-cased name with dashes and spaces made underscores,
/// left as it is when it starts with `KEY_` already and with `KEY_` put in
/// front otherwise (so `F5` is looked up as `KEY_F5`). Applying it again
/// changes nothing.
pub proof fn lemma_evdev_key_name_prefixed(upper: Seq<char>)
    ensures
        has_prefix(evdev_key_name(upper), key_prefix()),
        ({
            let t = upper.map_values(|c: char| underscore_separators(c));
            &&& has_prefix(t, key_prefix()) ==> evdev_key_name(upper) == t
            &&& !has_prefix(t, key_prefix()) ==> evdev_key_name(upper) == key_prefix() + t
        }),
        forall|i: int|
            0 <= i < evdev_key_name(upper).len() ==> #[trigger] evdev_key_name(upper)[i] != '-'
                && evdev_key_name(upper)[i] != ' ',
        evdev_key_name(evdev_key_name(upper)) == evdev_key_name(upper),
{
    let t = upper.map_values(|c: char| underscore_separators(c));
    let k = evdev_key_name(upper);
    if has_prefix(t, key_prefix()) {
        assert(k == t);
    } else {
        assert((key_prefix() + t).take(4) =~= key_prefix());
        assert(k == key_prefix() + t);
    }
    assert forall|i: int| 0 <= i < k.len() implies #[trigger] k[i] != '-' && k[i] != ' ' by {
        if !has_prefix(t, key_prefix()) && i >= 4 {
            assert(k[i] == t[i - 4]);
        }
    }
    let t2 = k.map_values(|c: char| underscore_separators(c));
    assert(t2 =~= k);
    assert(k.take(4) == key_prefix());
}

/// The code of an alias key name, if `key` is one.
pub fn alias_code(key: &Vec<char>) -> (r: Option<u16>)
    ensures
        r == key_alias(key@),
{
    if same_text(key, "KEY_BACKTICK") {
        Some(41)
    } else if same_text(key, "KEY_RALT") {
        Some(100)
    } else if same_text(key, "KEY_RCTRL") {
        Some(97)
    } else {
        None
    }
}

/// The answer for the hotkey `name` given the code found for it: the code,
/// or the message that the key is unknown.
pub fn key_result(code: Option<u16>, name: &str) -> (r: Result<u16, String>)
    ensures
        result_view(r) == key_result_view(code, name@),
{
    match code {
        Some(c) => Ok(c),
        None => {
            let mut msg = String::from_str("Unknown key: ");
            msg.append(name);
            msg.append(". Try: SCROLLLOCK, PAUSE, F13-F24");
            Err(msg)
        },
    }
}

/// The key code for `name`, given `upper`, the upper-cased `name`: an alias,
/// else any evdev key name.
pub fn key_from_uppercased(upper: &str, name: &str) -> (r: Result<u16, String>)
    ensures
        result_view(r) == key_lookup(upper@, name@),
{
    let key = evdev_name(upper);
    let code = match alias_code(&key) {
        Some(c) => Some(c),
        None => {
            let key_text = string_of(&key);
            evdev_key_from_name(key_text.as_str())
        },
    };
    key_result(code, name)
}

/// Parses a hotkey name such as `F13`, `leftmeta`, `video-next` or
/// `KEY_PAUSE` (any evdev key name, or one of the aliases) into the Linux
/// input event code of the key. The name is upper-cased, dashes and spaces
/// become underscores and `KEY_` is added when missing.
pub fn parse_key(name: &str) -> (r: Result<u16, String>)
    ensures
        result_view(r) == key_lookup(unicode_str_uppercase(name@), name@),
        all_ascii(name@) ==> result_view(r) == key_lookup(
            name@.map_values(|c: char| ascii_upper(c)),
            name@,
        ),
{
    let upper = str_to_uppercase(name);
    key_from_uppercased(upper.as_str(), name)
}

// ---------------------------------------------------------------------------
// Press/release tracking
// ---------------------------------------------------------------------------
/// The tracker's answer to one key event with evdev value `value`
/// (1 = press, 0 = release, 2 = auto-repeat), from the state `pressed`:
/// the new state and the event to report, if any.
pub open spec fn key_step(pressed: bool, value: i32) -> (bool, Option<HotkeyEvent>) {
    if value == 1 && !pressed {
        (true, Some(HotkeyEvent::Pressed))
    } else if value == 0 && pressed {
        (false, Some(HotkeyEvent::Released))
    } else {
        (pressed, None)
    }
}

/// Follows whether the hotkey is held, so that auto-repeat and duplicate
/// events are not reported.
pub struct KeyTracker {
    pub pressed: bool,
}

impl KeyTracker {
    /// A tracker for a key that is not held.
    pub fn new() -> (t: KeyTracker)
        ensures
            !t.pressed,
    {
        KeyTracker { pressed: false }
    }

    /// Takes one event of the hotkey with evdev value `value` and returns
    /// what is to be reported.
    pub fn on_key_value(&mut self, value: i32) -> (ev: Option<HotkeyEvent>)
        ensures
            (final(self).pressed, ev) == key_step(old(self).pressed, value),
    {
        if value == 1 && !self.pressed {
            self.pressed = true;
            Some(HotkeyEvent::Pressed)
        } else if value == 0 && self.pressed {
            self.pressed = false;
            Some(HotkeyEvent::Released)
        } else {
            None
        }
    }

    /// Takes one key event from a keyboard: events of other keys than
    /// `target` are ignored.
    pub fn on_event(&mut self, code: u16, target: u16, value: i32) -> (ev: Option<HotkeyEvent>)
        ensures
            code == target ==> (final(self).pressed, ev) == key_step(old(self).pressed, value),
            code != target ==> final(self).pressed == old(self).pressed && ev is None,
    {
        if code == target {
            self.on_key_value(value)
        } else {
            None
        }
    }
}

/// The events reported for the key values `values`, from the state `pressed`.
pub open spec fn reported_events(pressed: bool, values: Seq<i32>) -> Seq<HotkeyEvent>
    decreases values.len(),
{
    if values.len() == 0 {
        seq![]
    } else {
        let (next, ev) = key_step(pressed, values[0]);
        let rest = reported_events(next, values.drop_first());
        match ev {
            Some(e) => seq![e] + rest,
            None => rest,
        }
    }
}

/// The event expected at position `i` of a report that starts in state `pressed`.
pub open spec fn alternating(pressed: bool, i: int) -> HotkeyEvent {
    if (i % 2 == 0) != pressed {
        HotkeyEvent::Pressed
    } else {
        HotkeyEvent::Released
    }
}

/// Whatever the key does, the reported events alternate: a press is always
/// followed by a release before the next press, and from a released key the
/// first event is a press.
pub proof fn lemma_events_alternate(pressed: bool, values: Seq<i32>)
    ensures
        forall|i: int|
            0 <= i < reported_events(pressed, values).len() ==> #[trigger] reported_events(
                pressed,
                values,
            )[i] == alternating(pressed, i),
    decreases values.len(),
{
    if values.len() > 0 {
        let (next, ev) = key_step(pressed, values[0]);
        lemma_events_alternate(next, values.drop_first());
        let rest = reported_events(next, values.drop_first());
        if ev is Some {
            assert(next == !pressed);
            assert forall|i: int|
                0 <= i < reported_events(pressed, values).len() implies #[trigger] reported_events(
                pressed,
                values,
            )[i] == alternating(pressed, i) by {
                if i > 0 {
                    assert(reported_events(pressed, values)[i] == rest[i - 1]);
                    assert(rest[i - 1] == alternating(next, i - 1));
                }
            }
        }
    }
}

// ---------------------------------------------------------------------------
// Keyboard devices
// ---------------------------------------------------------------------------
/// How many times the listener looks again for keyboards before it gives up.
pub const MAX_KEYBOARD_RETRIES: u32 = 10;

/// Counts the rounds in which no keyboard was found.
pub struct KeyboardSearch {
    pub retries: u32,
}

impl KeyboardSearch {
    pub fn new() -> (s: KeyboardSearch)
        ensures
            s.retries == 0,
    {
        KeyboardSearch { retries: 0 }
    }

    /// Records a round without keyboards; answers whether to give up.
    pub fn no_keyboards(&mut self) -> (give_up: bool)
        requires
            old(self).retries <= MAX_KEYBOARD_RETRIES,
        ensures
            final(self).retries == old(self).retries + 1,
            give_up == (final(self).retries > MAX_KEYBOARD_RETRIES),
    {
        self.retries = self.retries + 1;
        self.retries > MAX_KEYBOARD_RETRIES
    }
}

/// Whether a file of `/dev/input` is an event device node.
pub fn is_event_node(file_name: &str) -> (r: bool)
    ensures
        r == (file_name@.len() >= 5 && file_name@.take(5) == seq!['e', 'v', 'e', 'n', 't']),
{
    let cs = chars_of(file_name);
    if cs.len() >= 5 && cs[0] == 'e' && cs[1] == 'v' && cs[2] == 'e' && cs[3] == 'n' && cs[4] == 't' {
        assert(cs@.take(5) =~= seq!['e', 'v', 'e', 'n', 't']);
        true
    } else {
        assert(cs@.len() >= 5 ==> cs@.take(5) != seq!['e', 'v', 'e', 'n', 't']) by {
            if cs@.len() >= 5 && cs@.take(5) == seq!['e', 'v', 'e', 'n', 't'] {
                assert(cs@.take(5)[0] == cs@[0]);
                assert(cs@.take(5)[1] == cs@[1]);
                assert(cs@.take(5)[2] == cs@[2]);
                assert(cs@.take(5)[3] == cs@[3]);
                assert(cs@.take(5)[4] == cs@[4]);
            }
        }
        false
    }
}

/// The items of `s` from position `start` on whose positions are not in `gone`.
pub open spec fn kept_from<T>(s: Seq<T>, start: int, gone: Set<usize>) -> Seq<T>
    decreases s.len() - start,
{
    if start < 0 || start >= s.len() {
        seq![]
    } else {
        let rest = kept_from(s, start + 1, gone);
        if gone.contains(start as usize) {
            rest
        } else {
            seq![s[start]] + rest
        }
    }
}

pub open spec fn strictly_increasing(s: Seq<usize>) -> bool {
    forall|i: int, j: int| 0 <= i < j < s.len() ==> s[i] < s[j]
}

proof fn lemma_kept_untouched<T>(s: Seq<T>, start: int, end: int, gone: Set<usize>)
    requires
        0 <= start <= end <= s.len(),
        s.len() <= usize::MAX,
        forall|k: usize| start <= k < end ==> !(#[trigger] gone.contains(k)),
    ensures
        kept_from(s, start, gone) == s.subrange(start, end) + kept_from(s, end, gone),
    decreases end - start,
{
    if start < end {
        lemma_kept_untouched(s, start + 1, end, gone);
        let k = start as usize;
        assert(start <= k < end);
        assert(!gone.contains(k));
        assert(s.subrange(start, end) =~= seq![s[start]] + s.subrange(start + 1, end));
        assert(kept_from(s, start, gone) == seq![s[start]] + kept_from(s, start + 1, gone));
        assert(seq![s[start]] + (s.subrange(start + 1, end) + kept_from(s, end, gone))
            =~= s.subrange(start, end) + kept_from(s, end, gone));
    } else {
        assert(s.subrange(start, end) =~= Seq::<T>::empty());
    }
}

/// Removes from `items` the items at the positions `stale` (listed in
/// increasing order), keeping the others in their order.
pub fn remove_positions<T>(items: &mut Vec<T>, stale: &Vec<usize>)
    requires
        strictly_increasing(stale@),
        forall|i: int| 0 <= i < stale@.len() ==> #[trigger] stale@[i] < old(items)@.len(),
    ensures
        final(items)@ == kept_from(old(items)@, 0, stale@.to_set()),
{
    let ghost orig = items@;
    assert(orig.len() == items.len());
    let ghost gone = stale@.to_set();
    let mut k = stale.len();
    let ghost bound: int = orig.len() as int;
    assert(orig.subrange(0, orig.len() as int) =~= orig);
    assert(kept_from(orig, orig.len() as int, gone) =~= Seq::<T>::empty());
    while k > 0
        invariant
            k <= stale.len(),
            strictly_increasing(stale@),
            forall|i: int| 0 <= i < stale@.len() ==> #[trigger] stale@[i] < orig.len(),
            gone == stale@.to_set(),
            orig.len() <= usize::MAX,
            bound == (if k == stale.len() { orig.len() as int } else { stale@[k as int] as int }),
            0 <= bound <= orig.len(),
            items@ == orig.subrange(0, bound) + kept_from(orig, bound, gone),
        decreases k,
    {
        k = k - 1;
        let q = stale[k];
        proof {
            assert(forall|m: usize| q < m < bound ==> !(#[trigger] gone.contains(m))) by {
                assert forall|m: usize| q < m < bound implies !(#[trigger] gone.contains(m)) by {
                    if gone.contains(m) {
                        let j = choose|j: int| 0 <= j < stale@.len() && stale@[j] == m;
                        assert(stale@[j] == m);
                        if j <= k as int {
                            if j < k as int {
                                assert(stale@[j] < stale@[k as int]);
                            }
                        } else {
                            assert(j >= k + 1);
                            if j > k + 1 {
                                assert(stale@[k + 1] < stale@[j]);
                            }
                        }
                    }
                }
            }
            assert(gone.contains(q)) by {
                assert(stale@[k as int] == q);
            }
            lemma_kept_untouched(orig, q + 1, bound, gone);
            assert(kept_from(orig, q as int, gone) == kept_from(orig, q + 1, gone));
        }
        items.remove(q);
        proof {
            assert(items@ =~= orig.subrange(0, q as int) + kept_from(orig, q as int, gone));
            bound = q as int;
        }
    }
    proof {
        assert forall|m: usize| 0 <= m < bound implies !(#[trigger] gone.contains(m)) by {
            if gone.contains(m) {
                let j = choose|j: int| 0 <= j < stale@.len() && stale@[j] == m;
                if j > 0 {
                    assert(stale@[0] < stale@[j]);
                }
            }
        }
        lemma_kept_untouched(orig, 0, bound, gone);
    }
}

} // verus!
