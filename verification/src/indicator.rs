//! What the on-screen indicator shows.
use vstd::prelude::*;

verus! {

/// The indicator's state.
#[derive(Debug, Clone, Copy, PartialEq, Eq, Structural)]
pub enum IndicatorState {
    Hidden,
    Recording,
    Transcribing,
}

/// The decimal digit for `d < 10`.
pub open spec fn digit(d: nat) -> char {
    ((48 + d) as u32) as char
}

/// The decimal representation of `n`, without leading zeros.
pub open spec fn decimal(n: nat) -> Seq<char>
    decreases n,
{
    if n < 10 {
        seq![digit(n)]
    } else {
        decimal(n / 10).push(digit(n % 10))
    }
}

/// `n` with at least two digits.
pub open spec fn two_digits(n: nat) -> Seq<char> {
    if n < 10 {
        seq!['0', digit(n)]
    } else {
        decimal(n)
    }
}

/// Elapsed time as minutes and two-digit seconds, e.g. `1:05`.
pub open spec fn elapsed_text(secs: nat) -> Seq<char> {
    decimal(secs / 60) + seq![':'] + two_digits(secs % 60)
}

fn digit_char(d: u64) -> (c: char)
    requires
        d < 10,
    ensures
        c == digit(d as nat),
{
    let b: u8 = 48u8 + (d as u8);
    b as char
}

fn push_decimal(s: &mut String, n: u64)
    ensures
        final(s)@ == old(s)@ + decimal(n as nat),
    decreases n,
{
    if n >= 10 {
        push_decimal(s, n / 10);
    }
    s.push(digit_char(n % 10));
}

/// The recording time shown by the indicator: minutes, a colon and two
/// digits of seconds.
pub fn elapsed_label(secs: u64) -> (r: String)
    ensures
        r@ == elapsed_text(secs as nat),
{
    let mut r = String::new();
    push_decimal(&mut r, secs / 60);
    r.push(':');
    let s = secs % 60;
    if s < 10 {
        r.push('0');
    }
    push_decimal(&mut r, s);
    r
}

/// The text put on the indicator when it enters `state`, if any.
pub fn label_on_show(state: IndicatorState) -> (r: Option<&'static str>)
    ensures
        state == IndicatorState::Recording ==> (r matches Some(t) && t@ == "0:00"@),
        state == IndicatorState::Transcribing ==> (r matches Some(t) && t@ == "..."@),
        state == IndicatorState::Hidden ==> r is None,
{
    match state {
        IndicatorState::Recording => Some("0:00"),
        IndicatorState::Transcribing => Some("..."),
        IndicatorState::Hidden => None,
    }
}

/// Whether the indicator window is on screen in `state`.
pub fn is_visible(state: IndicatorState) -> (r: bool)
    ensures
        r == (state != IndicatorState::Hidden),
{
    match state {
        IndicatorState::Hidden => false,
        _ => true,
    }
}

/// Whether the indicator uses its transcribing colours in `state`.
pub fn uses_transcribing_style(state: IndicatorState) -> (r: bool)
    ensures
        r == (state == IndicatorState::Transcribing),
{
    match state {
        IndicatorState::Transcribing => true,
        _ => false,
    }
}

/// The text that the periodic update puts on the indicator: while
/// recording (with a start time), the time elapsed since the start.
pub fn tick_label(state: IndicatorState, elapsed_secs: Option<u64>) -> (r: Option<String>)
    ensures
        (state == IndicatorState::Recording && elapsed_secs is Some) ==> (r matches Some(t)
            && t@ == elapsed_text(elapsed_secs->0 as nat)),
        !(state == IndicatorState::Recording && elapsed_secs is Some) ==> r is None,
{
    match (state, elapsed_secs) {
        (IndicatorState::Recording, Some(secs)) => Some(elapsed_label(secs)),
        _ => None,
    }
}

/// When recording starts the indicator shows `0:00`, which is also what the
/// periodic update shows at zero seconds: the label does not jump.
pub proof fn lemma_recording_label_starts_at_zero()
    ensures
        elapsed_text(0) == "0:00"@,
{
    reveal_strlit("0:00");
    assert(decimal(0) == seq!['0']);
    assert(two_digits(0) == seq!['0', '0']);
    assert(elapsed_text(0) =~= "0:00"@);
}

} // verus!
