use loreglide::diffing::{SpeakEvent, TypingState};
use loreglide::settings::{editor_tick, Switches};

#[test]
fn defaults_are_privacy_first() {
    let s = Switches::default();
    assert!(!s.global_watch_enabled);
    assert!(s.editor_echo_enabled);
    assert!(s.speak_words);
    assert!(s.speak_sentences);
    assert_eq!(s.poll_ms, 100);
}

#[test]
fn tray_toggle_flips_global_watch() {
    let mut s = Switches::default();
    assert!(s.toggle_global_watch());
    assert!(s.global_watch_enabled);
    assert!(!s.toggle_global_watch());
    assert_eq!(s, Switches::default());
}

#[test]
fn switches_filter_events() {
    let mut s = Switches::default();
    s.speak_words = false;
    assert!(!s.allows(&SpeakEvent::Word("a".into())));
    assert!(s.allows(&SpeakEvent::Sentence("A.".into())));
    s.speak_sentences = false;
    assert!(!s.allows(&SpeakEvent::Sentence("A.".into())));
}

#[test]
fn editor_tick_with_echo_off_does_nothing() {
    let mut s = Switches::default();
    s.editor_echo_enabled = false;
    let mut state = TypingState::new();
    assert_eq!(editor_tick("hello ", &s, &mut state), (None, false));
    assert_eq!(state.last_text, "");
}

#[test]
fn editor_tick_reports_muted_events() {
    let mut s = Switches::default();
    s.speak_words = false;
    let mut state = TypingState::new();
    assert_eq!(
        editor_tick("hello ", &s, &mut state),
        (Some(SpeakEvent::Word("hello".into())), false)
    );
    assert_eq!(
        editor_tick("hello there.", &s, &mut state),
        (Some(SpeakEvent::Sentence("hello there.".into())), true)
    );
    assert_eq!(editor_tick("hello there.", &s, &mut state), (None, false));
}
