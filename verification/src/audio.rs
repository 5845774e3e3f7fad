//! Audio capture parameters, the choice of the input device and the cutting
//! of captured samples into frames for voice activity detection.
use vstd::prelude::*;
use crate::chars::str_eq;
use vstd::string::StringExecFns;

verus! {

/// Sample rate of the captured audio, in Hz (what Whisper expects).
pub const SAMPLE_RATE: u32 = 16000;

/// Number of captured channels.
pub const CHANNELS: u16 = 1;

/// Samples per frame handed to the voice activity detector.
pub const CHUNK_SIZE: usize = 512;

pub open spec fn frame_views<T>(frames: Seq<Vec<T>>) -> Seq<Seq<T>> {
    frames.map_values(|f: Vec<T>| f@)
}

/// Cuts the front of `pending` into whole frames of `size` samples, in
/// order, and leaves the remainder (shorter than a frame) in `pending`.
pub fn take_frames<T: Copy>(pending: &mut Vec<T>, size: usize) -> (frames: Vec<Vec<T>>)
    requires
        size > 0,
    ensures
        frame_views(frames@).flatten() + final(pending)@ == old(pending)@,
        forall|i: int| 0 <= i < frames@.len() ==> (#[trigger] frames@[i])@.len() == size,
        final(pending)@.len() < size,
{
    let n = pending.len();
    let mut frames: Vec<Vec<T>> = Vec::new();
    let mut start: usize = 0;
    while n - start >= size
        invariant
            n == pending.len(),
            start <= n,
            size > 0,
            frame_views(frames@).flatten() == pending@.take(start as int),
            forall|i: int| 0 <= i < frames@.len() ==> (#[trigger] frames@[i])@.len() == size,
        decreases n - start,
    {
        let mut frame: Vec<T> = Vec::new();
        let mut j: usize = 0;
        while j < size
            invariant
                n == pending.len(),
                start + size <= n,
                j <= size,
                frame@ == pending@.subrange(start as int, start + j),
            decreases size - j,
        {
            frame.push(pending[start + j]);
            assert(pending@.subrange(start as int, start + j + 1) =~= pending@.subrange(
                start as int,
                start + j,
            ).push(pending@[start + j]));
            j = j + 1;
        }
        proof {
            let fs = frame_views(frames@);
            fs.lemma_flatten_push(frame@);
            assert(frame_views(frames@.push(frame)) =~= fs.push(frame@));
            assert(pending@.take(start + size) =~= pending@.take(start as int) + pending@.subrange(
                start as int,
                start + size,
            ));
        }
        frames.push(frame);
        start = start + size;
    }
    let ghost old_pending = pending@;
    let mut rest: Vec<T> = Vec::new();
    let mut k = start;
    while k < n
        invariant
            n == old_pending.len(),
            n == pending.len(),
            pending@ == old_pending,
            start <= k <= n,
            rest@ == old_pending.subrange(start as int, k as int),
        decreases n - k,
    {
        rest.push(pending[k]);
        assert(old_pending.subrange(start as int, k + 1) =~= old_pending.subrange(start as int, k as int).push(old_pending[k as int]));
        k = k + 1;
    }
    assert(old_pending.take(start as int) + old_pending.subrange(start as int, n as int) =~= old_pending);
    *pending = rest;
    frames
}

/// The message for an input device that is not found.
pub open spec fn device_not_found_message(name: Seq<char>) -> Seq<char> {
    "Device '"@ + name + "' not found"@
}

/// The position of the device called `wanted` among devices whose names
/// are `names` (`None` for a device whose name cannot be read); the first
/// match wins.
pub open spec fn device_position(names: Seq<Option<Seq<char>>>, wanted: Seq<char>) -> Option<int>
    decreases names.len(),
{
    if names.len() == 0 {
        None
    } else if names[0] == Some(wanted) {
        Some(0)
    } else {
        match device_position(names.drop_first(), wanted) {
            Some(i) => Some(i + 1),
            None => None,
        }
    }
}

pub open spec fn name_views(names: Seq<Option<String>>) -> Seq<Option<Seq<char>>> {
    names.map_values(|n: Option<String>| match n {
        Some(s) => Some(s@),
        None => None,
    })
}

proof fn lemma_position_found(names: Seq<Option<Seq<char>>>, wanted: Seq<char>, i: int)
    requires
        0 <= i < names.len(),
        names[i] == Some(wanted),
        forall|k: int| 0 <= k < i ==> names[k] != Some(wanted),
    ensures
        device_position(names, wanted) == Some(i),
    decreases i,
{
    if i > 0 {
        lemma_position_found(names.drop_first(), wanted, i - 1);
    }
}

proof fn lemma_position_missing(names: Seq<Option<Seq<char>>>, wanted: Seq<char>)
    requires
        forall|k: int| 0 <= k < names.len() ==> names[k] != Some(wanted),
    ensures
        device_position(names, wanted) is None,
    decreases names.len(),
{
    if names.len() > 0 {
        lemma_position_missing(names.drop_first(), wanted);
    }
}

/// Picks the input device called `wanted`: its position among the devices
/// whose names are `names`, or the error message when none has that name.
pub fn select_device(names: &Vec<Option<String>>, wanted: &str) -> (r: Result<usize, String>)
    ensures
        match device_position(name_views(names@), wanted@) {
            Some(i) => r == Ok::<usize, String>(i as usize),
            None => r matches Err(msg) && msg@ == device_not_found_message(wanted@),
        },
{
    let ghost views = name_views(names@);
    for i in 0..names.len()
        invariant
            views == name_views(names@),
            forall|k: int| 0 <= k < i ==> views[k] != Some(wanted@),
    {
        let found = match &names[i] {
            Some(n) => str_eq(n.as_str(), wanted),
            None => false,
        };
        if found {
            proof { lemma_position_found(views, wanted@, i as int); }
            return Ok(i);
        }
    }
    proof { lemma_position_missing(views, wanted@); }
    let mut msg = String::from_str("Device '");
    msg.append(wanted);
    msg.append("' not found");
    Err(msg)
}

} // verus!
