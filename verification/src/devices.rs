//! The input devices that `pactl list sources` reports.
use crate::chars::{chars_of, contains, has_infix, has_prefix, starts_with, string_of, tail_from};
use vstd::prelude::*;

verus! {

/// An audio input device: its PulseAudio/PipeWire name and its description.
pub struct AudioDevice {
    pub name: String,
    pub description: String,
}

// ---------------------------------------------------------------------------
// Lines (the semantics of `str::lines`)
// ---------------------------------------------------------------------------
/// A line without the carriage return of a `\r\n` ending.
pub open spec fn without_cr(l: Seq<char>) -> Seq<char> {
    if l.len() > 0 && l.last() == '\r' {
        l.drop_last()
    } else {
        l
    }
}

/// The lines of `s`, where `cur` is the part of the current line read so far.
pub open spec fn lines_from(s: Seq<char>, cur: Seq<char>) -> Seq<Seq<char>>
    decreases s.len(),
{
    if s.len() == 0 {
        if cur.len() == 0 {
            seq![]
        } else {
            seq![cur]
        }
    } else if s[0] == '\n' {
        seq![without_cr(cur)] + lines_from(s.drop_first(), seq![])
    } else {
        lines_from(s.drop_first(), cur.push(s[0]))
    }
}

/// The lines of `s`: split at `\n` or `\r\n`; a final line ending is optional.
pub open spec fn lines_of(s: Seq<char>) -> Seq<Seq<char>> {
    lines_from(s, seq![])
}

pub open spec fn vec_views(vs: Seq<Vec<char>>) -> Seq<Seq<char>> {
    vs.map_values(|v: Vec<char>| v@)
}

/// The lines of `text`.
pub fn split_lines(text: &str) -> (lines: Vec<Vec<char>>)
    ensures
        vec_views(lines@) == lines_of(text@),
{
    let cs = chars_of(text);
    let mut lines: Vec<Vec<char>> = Vec::new();
    let mut cur: Vec<char> = Vec::new();
    assert(cs@.skip(0) =~= cs@);
    for i in 0..cs.len()
        invariant
            cs@ == text@,
            lines_of(text@) == vec_views(lines@) + lines_from(cs@.skip(i as int), cur@),
    {
        let c = cs[i];
        let ghost rest = cs@.skip(i as int);
        assert(rest.drop_first() =~= cs@.skip(i + 1));
        assert(rest[0] == c);
        if c == '\n' {
            let ghost before = vec_views(lines@);
            let ghost cur0 = cur@;
            if cur.len() > 0 && cur[cur.len() - 1] == '\r' {
                cur.pop();
            }
            let ghost done = cur@;
            assert(done == without_cr(cur0));
            lines.push(cur);
            cur = Vec::new();
            assert(vec_views(lines@) =~= before.push(done));
            assert(before.push(done) + lines_from(cs@.skip(i + 1), seq![]) =~= before + (seq![done]
                + lines_from(cs@.skip(i + 1), seq![])));
        } else {
            cur.push(c);
        }
    }
    assert(cs@.skip(cs.len() as int) =~= Seq::<char>::empty());
    if cur.len() > 0 {
        let ghost before = vec_views(lines@);
        let ghost last = cur@;
        lines.push(cur);
        assert(vec_views(lines@) =~= before + seq![last]);
    } else {
        assert(vec_views(lines@) =~= vec_views(lines@) + Seq::<Seq<char>>::empty());
    }
    lines
}

// ---------------------------------------------------------------------------
// Sources
// ---------------------------------------------------------------------------
pub open spec fn name_tag() -> Seq<char> {
    "\tName: "@
}

pub open spec fn description_tag() -> Seq<char> {
    "\tDescription: "@
}

/// Whether a source is a monitor of an output rather than an input.
pub open spec fn is_monitor(name: Seq<char>, description: Seq<char>) -> bool {
    has_infix(name, ".monitor"@) || has_prefix(description, "Monitor of"@)
}

/// The devices listed in `lines`, where `current` is the name of the source
/// being described: each `Name:` line starts a source and each
/// `Description:` line of a source that is not a monitor adds a device.
pub open spec fn sources_from(lines: Seq<Seq<char>>, current: Seq<char>) -> Seq<(Seq<char>, Seq<char>)>
    decreases lines.len(),
{
    if lines.len() == 0 {
        seq![]
    } else {
        let l = lines[0];
        if has_prefix(l, name_tag()) {
            sources_from(lines.drop_first(), l.skip(name_tag().len() as int))
        } else if has_prefix(l, description_tag()) && !is_monitor(
            current,
            l.skip(description_tag().len() as int),
        ) {
            seq![(current, l.skip(description_tag().len() as int))] + sources_from(
                lines.drop_first(),
                current,
            )
        } else {
            sources_from(lines.drop_first(), current)
        }
    }
}

/// The input devices in the output of `pactl list sources`.
pub open spec fn input_sources(text: Seq<char>) -> Seq<(Seq<char>, Seq<char>)> {
    sources_from(lines_of(text), seq![])
}

pub open spec fn device_views(ds: Seq<AudioDevice>) -> Seq<(Seq<char>, Seq<char>)> {
    ds.map_values(|d: AudioDevice| (d.name@, d.description@))
}

/// The input devices in the output of `pactl list sources`: sources with
/// their descriptions, leaving out monitors of outputs.
pub fn parse_sources(text: &str) -> (ds: Vec<AudioDevice>)
    ensures
        device_views(ds@) == input_sources(text@),
{
    let lines = split_lines(text);
    let name_len = chars_of("\tName: ").len();
    let desc_len = chars_of("\tDescription: ").len();
    let mut ds: Vec<AudioDevice> = Vec::new();
    let mut current: Vec<char> = Vec::new();
    let ghost ls = vec_views(lines@);
    assert(ls.skip(0) =~= ls);
    for i in 0..lines.len()
        invariant
            ls == vec_views(lines@),
            ls == lines_of(text@),
            name_len == name_tag().len(),
            desc_len == description_tag().len(),
            input_sources(text@) == device_views(ds@) + sources_from(ls.skip(i as int), current@),
    {
        let ghost rest = ls.skip(i as int);
        assert(rest.drop_first() =~= ls.skip(i + 1));
        assert(rest[0] == lines@[i as int]@);
        let line = string_of(&lines[i]);
        if starts_with(line.as_str(), "\tName: ") {
            current = tail_from(&lines[i], name_len);
        } else if starts_with(line.as_str(), "\tDescription: ") {
            let desc = tail_from(&lines[i], desc_len);
            let name_str = string_of(&current);
            let desc_str = string_of(&desc);
            if !contains(name_str.as_str(), ".monitor") && !starts_with(desc_str.as_str(), "Monitor of") {
                let ghost before = device_views(ds@);
                ds.push(AudioDevice { name: name_str, description: desc_str });
                assert(device_views(ds@) =~= before.push((current@, desc@)));
                assert(before.push((current@, desc@)) + sources_from(ls.skip(i + 1), current@)
                    =~= before + (seq![(current@, desc@)] + sources_from(ls.skip(i + 1), current@)));
            }
        }
    }
    assert(ls.skip(lines.len() as int) =~= Seq::<Seq<char>>::empty());
    assert(device_views(ds@) + Seq::<(Seq<char>, Seq<char>)>::empty() =~= device_views(ds@));
    ds
}

} // verus!
