//! The switches of the settings panel, and what the in-window test box
//! does with each keystroke.
//!
//! The voice rate and volume live beside these switches in the panel's
//! settings; they are numbers the speech engine reads, and no rule of the
//! library depends on them.

use vstd::prelude::*;

use crate::diffing::{evaluate, evaluation, utterance_of, SpeakEvent, TypingState, Utterance};
use crate::watcher::DEFAULT_POLL_MS;

verus! {

/// The on/off switches of the settings panel and the global poll interval.
#[derive(Debug, Clone, Copy, PartialEq, Eq)]
pub struct Switches {
    /// Master switch for the OS-wide watcher. When `false`, nothing typed
    /// in other applications is read or spoken.
    pub global_watch_enabled: bool,
    /// Separate toggle for the in-window test field.
    pub editor_echo_enabled: bool,
    pub speak_words: bool,
    pub speak_sentences: bool,
    pub poll_ms: u64,
}

impl Default for Switches {
    /// Global watch starts OFF: nothing is read until the user opts in.
    /// The test field echoes words and sentences; the watcher polls every
    /// `DEFAULT_POLL_MS` milliseconds.
    fn default() -> (r: Self)
        ensures
            !r.global_watch_enabled,
            r.editor_echo_enabled,
            r.speak_words,
            r.speak_sentences,
            r.poll_ms == DEFAULT_POLL_MS,
    {
        Switches {
            global_watch_enabled: false,
            editor_echo_enabled: true,
            speak_words: true,
            speak_sentences: true,
            poll_ms: DEFAULT_POLL_MS,
        }
    }
}

/// Whether switches `s` let an utterance `u` be voiced.
pub open spec fn voiced_by(s: Switches, u: Utterance) -> bool {
    match u {
        Utterance::Word(_) => s.speak_words,
        Utterance::Sentence(_) => s.speak_sentences,
    }
}

/// A word is voiced exactly when words are spoken, and a sentence exactly
/// when sentences are; neither depends on the other switch.
pub proof fn law_switches_are_independent(s: Switches, text: Seq<char>)
    ensures
        voiced_by(s, Utterance::Word(text)) == s.speak_words,
        voiced_by(s, Utterance::Sentence(text)) == s.speak_sentences,
        voiced_by(Switches { speak_sentences: !s.speak_sentences, ..s }, Utterance::Word(text))
            == voiced_by(s, Utterance::Word(text)),
        voiced_by(Switches { speak_words: !s.speak_words, ..s }, Utterance::Sentence(text))
            == voiced_by(s, Utterance::Sentence(text)),
{
}

impl Switches {
    /// Whether these switches let `event` be voiced: words when words are
    /// spoken, sentences when sentences are.
    pub fn allows(&self, event: &SpeakEvent) -> (r: bool)
        ensures
            r == voiced_by(*self, event@),
    {
        match event {
            SpeakEvent::Word(_) => self.speak_words,
            SpeakEvent::Sentence(_) => self.speak_sentences,
        }
    }

    /// The tray's "Pause / resume watching": flips the global watch and
    /// returns its new value.
    pub fn toggle_global_watch(&mut self) -> (r: bool)
        ensures
            r == !old(self).global_watch_enabled,
            *final(self) == (Switches { global_watch_enabled: r, ..*old(self) }),
    {
        self.global_watch_enabled = !self.global_watch_enabled;
        self.global_watch_enabled
    }
}

/// What the in-window test box does with its text after a keystroke: with
/// echo off, nothing (the diff state is left as it is); with echo on, the
/// text is evaluated, and the event, if any, is returned together with
/// whether the switches let it be voiced.
pub fn editor_tick(text: &str, switches: &Switches, state: &mut TypingState) -> (r: (
    Option<SpeakEvent>,
    bool,
))
    ensures
        !switches.editor_echo_enabled ==> r.0 is None && !r.1 && final(state)@ == old(state)@,
        switches.editor_echo_enabled ==> {
            &&& (utterance_of(r.0), final(state)@) == evaluation(text@, old(state)@)
            &&& r.1 == (utterance_of(r.0) matches Some(u) && voiced_by(*switches, u))
        },
{
    if !switches.editor_echo_enabled {
        return (None, false);
    }
    let event = evaluate(text, state);
    let voice = match &event {
        Some(ev) => switches.allows(ev),
        None => false,
    };
    (event, voice)
}

} // verus!
