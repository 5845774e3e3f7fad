//! The daemon's decisions: when to start and stop recording, what to do with
//! the recorded audio and with each transcript.
use crate::text::{process_punctuation, punctuated};
use vstd::prelude::*;

verus! {

/// The command delivered by `SIGUSR1`.
#[derive(Debug, Clone, Copy, PartialEq, Eq, Structural)]
pub enum SignalCommand {
    Toggle,
}

/// What asks the daemon to start or stop recording.
#[derive(Debug, Clone, Copy, PartialEq, Eq, Structural)]
pub enum Trigger {
    /// The toggle signal (toggle mode).
    Toggle,
    /// The hotkey went down (push-to-talk mode).
    Pressed,
    /// The hotkey went up (push-to-talk mode).
    Released,
}

/// What the daemon does in answer to a trigger.
#[derive(Debug, Clone, Copy, PartialEq, Eq, Structural)]
pub enum Command {
    /// Open a recording session; report the outcome with `recording_started`.
    StartRecording,
    /// Show the transcribing indicator and close the recording session.
    StopRecording,
    /// Nothing to do.
    Ignore,
}

/// What to do with the samples of a closed session.
#[derive(Debug, Clone, Copy, PartialEq, Eq, Structural)]
pub enum AfterStop {
    /// Hand the samples to the transcription worker.
    Transcribe,
    /// Nothing was recorded: hide the indicator.
    HideIndicator,
}

/// The answer to a trigger while `recording` tells whether a session is open:
/// whether a session stays open afterwards, and the command.
pub open spec fn trigger_step(recording: bool, t: Trigger) -> (bool, Command) {
    match t {
        Trigger::Toggle => if recording {
            (false, Command::StopRecording)
        } else {
            (false, Command::StartRecording)
        },
        Trigger::Pressed => if recording {
            (true, Command::Ignore)
        } else {
            (false, Command::StartRecording)
        },
        Trigger::Released => if recording {
            (false, Command::StopRecording)
        } else {
            (false, Command::Ignore)
        },
    }
}

/// Whether the daemon has a recording session open.
pub struct Daemon {
    pub recording: bool,
}

impl Daemon {
    /// A daemon that is not recording.
    pub fn new() -> (d: Daemon)
        ensures
            !d.recording,
    {
        Daemon { recording: false }
    }

    /// Decides what a trigger does. A stop closes the session; a start
    /// opens one only once `recording_started` reports success.
    pub fn on_trigger(&mut self, t: Trigger) -> (c: Command)
        ensures
            (final(self).recording, c) == trigger_step(old(self).recording, t),
    {
        match t {
            Trigger::Toggle => {
                if self.recording {
                    self.recording = false;
                    Command::StopRecording
                } else {
                    Command::StartRecording
                }
            },
            Trigger::Pressed => {
                if self.recording {
                    Command::Ignore
                } else {
                    Command::StartRecording
                }
            },
            Trigger::Released => {
                if self.recording {
                    self.recording = false;
                    Command::StopRecording
                } else {
                    Command::Ignore
                }
            },
        }
    }

    /// Records the outcome of `StartRecording`: on success a session is open
    /// (and the recording indicator is to be shown); on failure nothing changes.
    pub fn recording_started(&mut self, ok: bool)
        ensures
            final(self).recording == (old(self).recording || ok),
    {
        if ok {
            self.recording = true;
        }
    }
}

/// What to do with the samples of a closed session.
pub fn after_stop(no_samples: bool) -> (a: AfterStop)
    ensures
        a == (if no_samples {
            AfterStop::HideIndicator
        } else {
            AfterStop::Transcribe
        }),
{
    if no_samples {
        AfterStop::HideIndicator
    } else {
        AfterStop::Transcribe
    }
}

/// What to type for a transcript: nothing for an empty transcript, else the
/// transcript with spoken punctuation applied. (The indicator is hidden in
/// either case.)
pub fn text_to_paste(transcript: &str) -> (r: Option<String>)
    ensures
        transcript@.len() == 0 ==> r is None,
        transcript@.len() > 0 ==> (r matches Some(p) && p@ == punctuated(transcript@)),
{
    if transcript.is_empty() {
        None
    } else {
        Some(process_punctuation(transcript))
    }
}

/// In toggle mode one signal starts a recording (once it has started) and
/// the next one stops it.
pub proof fn lemma_toggle_starts_then_stops()
    ensures
        trigger_step(false, Trigger::Toggle) == (false, Command::StartRecording),
        trigger_step(true, Trigger::Toggle) == (false, Command::StopRecording),
{
}

/// In push-to-talk mode holding the key starts a recording and releasing it
/// stops the recording; a press while recording and a release while idle
/// change nothing.
pub proof fn lemma_push_to_talk(recording: bool)
    ensures
        !recording ==> trigger_step(recording, Trigger::Pressed) == (false, Command::StartRecording),
        recording ==> trigger_step(recording, Trigger::Released) == (false, Command::StopRecording),
        recording ==> trigger_step(recording, Trigger::Pressed) == (true, Command::Ignore),
        !recording ==> trigger_step(recording, Trigger::Released) == (false, Command::Ignore),
{
}

/// Every trigger that stops a recording leaves the daemon idle, and no
/// trigger opens a session by itself.
pub proof fn lemma_no_session_without_start(recording: bool, t: Trigger)
    ensures
        trigger_step(recording, t).1 == Command::StopRecording ==> !trigger_step(recording, t).0,
        trigger_step(recording, t).0 ==> recording,
{
}

} // verus!
