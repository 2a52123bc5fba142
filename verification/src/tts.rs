//! What the speech worker is asked to do, and how its failures read.
//!
//! The synthesizer itself runs on a worker thread fed through a channel;
//! the rules it follows for each request are stated here.

use vstd::prelude::*;

use crate::text::{char_is_whitespace, chars_of, is_white_space};

verus! {

/// Why the speech engine could not be used.
#[derive(Debug, Clone, PartialEq, Eq)]
pub enum TtsError {
    /// The engine could not be initialized; the detail says why.
    Init(String),
    /// The worker thread has stopped.
    WorkerGone,
}

/// The message of a `TtsError`.
pub open spec fn tts_error_message(e: TtsError) -> Seq<char> {
    match e {
        TtsError::Init(detail) => "TTS engine could not be initialized: "@ + detail@,
        TtsError::WorkerGone => "TTS worker thread has stopped"@,
    }
}

impl TtsError {
    /// The human-readable message.
    pub fn message(&self) -> (r: String)
        ensures
            r@ == tts_error_message(*self),
    {
        match self {
            TtsError::Init(detail) => {
                String::from_str("TTS engine could not be initialized: ").concat(detail.as_str())
            },
            TtsError::WorkerGone => String::from_str("TTS worker thread has stopped"),
        }
    }
}

/// Whether a request to speak `text` is voiced: text that is empty or all
/// whitespace is skipped.
pub fn is_voiceable(text: &str) -> (r: bool)
    ensures
        r == exists|i: int| 0 <= i < text@.len() && !is_white_space(#[trigger] text@[i]),
{
    let chars = chars_of(text);
    let mut i: usize = 0;
    while i < chars.len()
        invariant
            i <= chars.len(),
            chars@ == text@,
            forall|j: int| 0 <= j < i ==> is_white_space(#[trigger] chars@[j]),
        decreases chars.len() - i,
    {
        if !char_is_whitespace(chars[i]) {
            return true;
        }
        i = i + 1;
    }
    false
}

} // verus!
