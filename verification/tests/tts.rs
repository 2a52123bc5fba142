use loreglide::tts::{is_voiceable, TtsError};

#[test]
fn error_messages() {
    assert_eq!(
        TtsError::Init("no engine".into()).message(),
        "TTS engine could not be initialized: no engine"
    );
    assert_eq!(TtsError::WorkerGone.message(), "TTS worker thread has stopped");
}

#[test]
fn blank_text_is_not_voiced() {
    assert!(!is_voiceable(""));
    assert!(!is_voiceable(" \t\n"));
    assert!(!is_voiceable("\u{3000}\u{a0}"));
    assert!(is_voiceable(" a "));
    assert!(is_voiceable("."));
}
