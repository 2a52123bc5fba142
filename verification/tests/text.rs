use loreglide::diffing::{evaluate, SpeakEvent, TypingState};
use loreglide::text::{chars_of, strip_span};
use loreglide::tts::is_voiceable;

#[test]
fn chars_in_order() {
    assert_eq!(chars_of("café!"), vec!['c', 'a', 'f', 'é', '!']);
    assert!(chars_of("").is_empty());
}

#[test]
fn strip_span_bounds() {
    assert_eq!(strip_span(&vec![true, false, true, false, true]), (1, 4));
    assert_eq!(strip_span(&vec![true, true]), (0, 0));
    assert_eq!(strip_span(&vec![]), (0, 0));
    assert_eq!(strip_span(&vec![false]), (0, 1));
}

#[test]
fn whitespace_class() {
    // Every character with the Unicode White_Space property is blank.
    for c in ['\t', '\n', '\u{b}', '\u{c}', '\r', ' ', '\u{85}', '\u{a0}', '\u{1680}', '\u{2000}', '\u{200a}', '\u{2028}', '\u{2029}', '\u{202f}', '\u{205f}', '\u{3000}'] {
        assert!(!is_voiceable(&c.to_string()), "{c:?}");
    }
    for c in ['a', '\u{200b}', '\u{180e}', '.', '\u{feff}'] {
        assert!(is_voiceable(&c.to_string()), "{c:?}");
    }
}

#[test]
fn alphanumeric_class() {
    // Letters and digits of any script are kept at the ends of a word;
    // other characters are stripped.
    for c in ['a', 'Z', '7', 'é', '藏', '¾'] {
        let mut state = TypingState::new();
        let text = format!("-{c}- ");
        assert_eq!(evaluate(&text, &mut state), Some(SpeakEvent::Word(c.to_string())), "{c:?}");
    }
    for c in [',', '-', '"', '('] {
        let mut state = TypingState::new();
        let text = format!("{c}{c} ");
        assert_eq!(evaluate(&text, &mut state), None, "{c:?}");
    }
}
