use loreglide::diffing::{evaluate, SpeakEvent, TypingState};

fn run(inputs: &[&str]) -> Vec<SpeakEvent> {
    let mut state = TypingState::new();
    let mut events = Vec::new();
    for s in inputs {
        if let Some(e) = evaluate(s, &mut state) {
            events.push(e);
        }
    }
    events
}

#[test]
fn word_fires_on_space() {
    let events = run(&["h", "he", "hel", "hell", "hello", "hello "]);
    assert_eq!(events, vec![SpeakEvent::Word("hello".into())]);
}

#[test]
fn sentence_fires_on_period() {
    let events = run(&["Hi", "Hi ", "Hi th", "Hi there", "Hi there."]);
    assert!(events
        .iter()
        .any(|e| matches!(e, SpeakEvent::Sentence(s) if s == "Hi there.")));
}

#[test]
fn backspace_does_not_speak() {
    let events = run(&["hello", "hell", "hel"]);
    assert!(events.is_empty());
}

#[test]
fn paste_in_middle_does_not_false_fire_sentence() {
    // Pasting "foo" into the middle of "abc abc": neither a boundary nor a
    // sentence ender is the last character of the text.
    let events = run(&["abc abc", "abfooc abc"]);
    assert!(events.is_empty());
}

#[test]
fn trailing_punctuation_is_stripped_from_word() {
    let events = run(&["Hello,", "Hello, "]);
    assert_eq!(events, vec![SpeakEvent::Word("Hello".into())]);
}

#[test]
fn multi_sentence_only_speaks_newest() {
    let mut state = TypingState::new();
    assert_eq!(
        evaluate("First sentence.", &mut state),
        Some(SpeakEvent::Sentence("First sentence.".into()))
    );
    assert_eq!(
        evaluate("First sentence. Second.", &mut state),
        Some(SpeakEvent::Sentence("Second.".into()))
    );
}

#[test]
fn unicode_is_respected() {
    let events = run(&["café ", "café w", "café world "]);
    assert_eq!(
        events,
        vec![
            SpeakEvent::Word("café".into()),
            SpeakEvent::Word("world".into()),
        ]
    );
}

#[test]
fn repeat_sentence_does_not_double_speak() {
    let mut state = TypingState::new();
    assert!(evaluate("Hi there.", &mut state).is_some());
    // Same snapshot arrives again from the watcher.
    assert!(evaluate("Hi there.", &mut state).is_none());
}

#[test]
fn reset_clears_memory() {
    let mut state = TypingState::new();
    evaluate("Hello world ", &mut state);
    state.reset();
    assert_eq!(state.last_text, "");
    assert!(state.last_spoken_word.is_none());
}

// ---------------------------------------------------------------------------
// Further cases
// ---------------------------------------------------------------------------

#[test]
fn evaluate_remembers_every_snapshot() {
    let mut state = TypingState::new();
    evaluate("abc", &mut state);
    assert_eq!(state.last_text, "abc");
    evaluate("ab", &mut state);
    assert_eq!(state.last_text, "ab");
    evaluate("ab!", &mut state);
    assert_eq!(state.last_text, "ab!");
}

#[test]
fn repeated_word_snapshot_is_silent() {
    let mut state = TypingState::new();
    assert_eq!(evaluate("one ", &mut state), Some(SpeakEvent::Word("one".into())));
    assert_eq!(evaluate("one ", &mut state), None);
    assert_eq!(state.last_spoken_word.as_deref(), Some("one"));
}

#[test]
fn shrink_to_empty_is_silent() {
    let mut state = TypingState::new();
    evaluate("typed. ", &mut state);
    assert_eq!(evaluate("", &mut state), None);
    assert_eq!(state.last_text, "");
}

#[test]
fn same_sentence_is_not_repeated_after_edit() {
    let mut state = TypingState::new();
    assert_eq!(evaluate("Go.", &mut state), Some(SpeakEvent::Sentence("Go.".into())));
    evaluate("Go", &mut state);
    // Retyping the same terminal punctuation yields the same sentence.
    assert_eq!(evaluate("Go.", &mut state), None);
    assert_eq!(state.last_spoken_sentence.as_deref(), Some("Go."));
}

#[test]
fn sentence_keeps_its_run_of_enders() {
    let mut state = TypingState::new();
    assert_eq!(
        evaluate("Done. Really?!", &mut state),
        Some(SpeakEvent::Sentence("Really?!".into()))
    );
}

#[test]
fn full_width_enders_complete_sentences() {
    let mut state = TypingState::new();
    assert_eq!(
        evaluate("你好。", &mut state),
        Some(SpeakEvent::Sentence("你好。".into()))
    );
    assert_eq!(
        evaluate("你好。再见！", &mut state),
        Some(SpeakEvent::Sentence("再见！".into()))
    );
}

#[test]
fn only_enders_and_spaces_say_nothing() {
    assert!(run(&["... "]).is_empty());
    assert!(run(&["   "]).is_empty());
    assert_eq!(run(&["!"]), vec![SpeakEvent::Sentence("!".into())]);
}

#[test]
fn word_after_ideographic_space() {
    // U+3000 is whitespace: the word after it is the one spoken.
    let events = run(&["a\u{3000}bc "]);
    assert_eq!(events, vec![SpeakEvent::Word("bc".into())]);
}

#[test]
fn word_keeps_apostrophes_and_drops_quotes() {
    let events = run(&["\"don't\" "]);
    assert_eq!(events, vec![SpeakEvent::Word("don't".into())]);
}

#[test]
fn newline_and_tab_complete_words() {
    assert_eq!(run(&["line\n"]), vec![SpeakEvent::Word("line".into())]);
    assert_eq!(run(&["cell\t"]), vec![SpeakEvent::Word("cell".into())]);
}

#[test]
fn punctuation_only_word_is_silent() {
    assert!(run(&["-- "]).is_empty());
}

#[test]
fn event_text_and_interrupt() {
    let w = SpeakEvent::Word("hi".into());
    let s = SpeakEvent::Sentence("Hi.".into());
    assert_eq!(w.text(), "hi");
    assert_eq!(s.text(), "Hi.");
    assert!(!w.interrupts());
    assert!(s.interrupts());
}

#[test]
fn default_state_is_empty() {
    let state = TypingState::default();
    assert_eq!(state.last_text, "");
    assert!(state.last_spoken_word.is_none());
    assert!(state.last_spoken_sentence.is_none());
}

#[test]
fn word_just_spoken_is_not_repeated() {
    let mut state = TypingState::new();
    assert_eq!(evaluate("hello ", &mut state), Some(SpeakEvent::Word("hello".into())));
    assert_eq!(evaluate("hello", &mut state), None);
    // The same word again while the text still ends in it: skipped.
    assert_eq!(evaluate("hello ", &mut state), None);
    // A new word is spoken, and after it the earlier word may come again.
    assert_eq!(evaluate("hello world ", &mut state), Some(SpeakEvent::Word("world".into())));
    assert_eq!(evaluate("hello world hello ", &mut state), Some(SpeakEvent::Word("hello".into())));
}

#[test]
fn repeated_word_after_punctuation_is_skipped() {
    let mut state = TypingState::new();
    state.last_text = "ok".into();
    state.last_spoken_word = Some("ok".into());
    assert_eq!(evaluate("ok ", &mut state), None);
    state.last_text = "ok!".into();
    // The remembered text no longer ends in the word: spoken.
    assert_eq!(evaluate("ok! ", &mut state), Some(SpeakEvent::Word("ok".into())));
}
