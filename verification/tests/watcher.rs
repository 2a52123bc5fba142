use loreglide::diffing::SpeakEvent;
use loreglide::watcher::{
    ax_element_key, element_key, field_text, focus_key, may_read_field, poll_interval_ms,
    runtime_id_key, FieldTracker, FocusId, FocusProbe, FocusSnapshot, NullProbe, DEFAULT_POLL_MS,
    MAX_POLL_MS, MIN_POLL_MS,
};

fn snap(id: &str, text: &str) -> FocusSnapshot {
    FocusSnapshot { id: FocusId(id.to_string()), text: text.to_string() }
}

#[test]
fn focus_change_seeds_without_speaking() {
    let mut t = FieldTracker::new();
    assert_eq!(t.observe(snap("field-a", "already here ")), None);
    assert_eq!(t.current_focus, Some(FocusId("field-a".to_string())));
    assert_eq!(t.state.last_text, "already here ");
    // The same snapshot again is silent.
    assert_eq!(t.observe(snap("field-a", "already here ")), None);
    // Typing on in the same field speaks.
    assert_eq!(
        t.observe(snap("field-a", "already here now ")),
        Some(SpeakEvent::Word("now".into()))
    );
}

#[test]
fn switching_fields_forgets_the_old_one() {
    let mut t = FieldTracker::new();
    t.observe(snap("a", ""));
    assert_eq!(t.observe(snap("a", "Hi.")), Some(SpeakEvent::Sentence("Hi.".into())));
    assert_eq!(t.observe(snap("b", "Hi.")), None);
    assert!(t.state.last_spoken_sentence.is_none());
    assert_eq!(t.state.last_text, "Hi.");
}

#[test]
fn pause_forgets_everything() {
    let mut t = FieldTracker::new();
    t.observe(snap("a", "x"));
    t.pause();
    assert_eq!(t.current_focus, None);
    assert_eq!(t.state.last_text, "");
    // Coming back to the same field is a focus change again: silent.
    assert_eq!(t.observe(snap("a", "x y ")), None);
}

#[test]
fn null_probe_sees_nothing() {
    let mut p = NullProbe;
    assert!(p.snapshot().is_none());
}

#[test]
fn poll_interval_is_clamped() {
    assert_eq!(poll_interval_ms(0), MIN_POLL_MS);
    assert_eq!(poll_interval_ms(19), 20);
    assert_eq!(poll_interval_ms(20), 20);
    assert_eq!(poll_interval_ms(100), 100);
    assert_eq!(poll_interval_ms(2000), 2000);
    assert_eq!(poll_interval_ms(2001), MAX_POLL_MS);
    assert_eq!(poll_interval_ms(u64::MAX), 2000);
    assert_eq!(DEFAULT_POLL_MS, 100);
}

#[test]
fn runtime_id_keys_are_hex() {
    assert_eq!(runtime_id_key(&vec![42, -1]), "2a-ffffffff-");
    assert_eq!(runtime_id_key(&vec![]), "");
    assert_eq!(runtime_id_key(&vec![0, 16, i32::MIN]), "0-10-80000000-");
    for n in [7i32, 255, 4096, -2, i32::MAX] {
        assert_eq!(runtime_id_key(&vec![n]), format!("{n:x}-"));
    }
}

#[test]
fn element_keys_follow_the_pattern() {
    assert_eq!(element_key(12, -3, "ab"), "pid12-ct-3-ab");
    assert_eq!(element_key(0, 50004, ""), "pid0-ct50004-");
    assert_eq!(element_key(u32::MAX, i32::MIN, "Name"), format!("pid{}-ct{}-Name", u32::MAX, i32::MIN));
    assert_eq!(ax_element_key(501, "AXTextField", "Title"), "pid501-AXTextField-Title");
    assert_eq!(ax_element_key(-1, "", ""), "pid-1--");
}

#[test]
fn first_snapshot_with_empty_key_is_not_read_back() {
    let mut t = FieldTracker::new();
    assert_eq!(t.observe(snap("", "Hi there.")), None);
    assert_eq!(t.state.last_text, "Hi there.");
    t.pause();
    assert_eq!(t.observe(snap("", "Hi there. More.")), None);
    assert_eq!(t.observe(snap("", "Hi there. More. Yes.")), Some(SpeakEvent::Sentence("Yes.".into())));
}

#[test]
fn poll_pauses_when_switched_off() {
    let mut t = FieldTracker::new();
    assert_eq!(t.poll(true, Some(snap("a", "x"))), None);
    assert_eq!(t.poll(true, None), None);
    assert_eq!(t.state.last_text, "x");
    assert_eq!(t.poll(true, Some(snap("a", "x y "))), Some(SpeakEvent::Word("y".into())));
    assert_eq!(t.poll(false, Some(snap("a", "x y z "))), None);
    assert_eq!(t.current_focus, None);
    assert_eq!(t.state.last_text, "");
    // Switched back on, the field's contents are only seeded.
    assert_eq!(t.poll(true, Some(snap("a", "x y z "))), None);
}

#[test]
fn password_fields_are_not_read() {
    assert!(!may_read_field(Some(true)));
    assert!(may_read_field(Some(false)));
    assert!(may_read_field(None));
}

#[test]
fn focus_key_fallbacks() {
    assert_eq!(focus_key(Some(vec![42, -1]), Some(7), 3, "n"), "2a-ffffffff-");
    assert_eq!(focus_key(None, Some(7), 50004, "Edit"), "pid7-ct50004-Edit");
    assert_eq!(focus_key(None, None, 3, "n"), "");
}

#[test]
fn field_text_fallbacks() {
    let s = |x: &str| Some(x.to_string());
    assert_eq!(field_text(s("v"), s("d"), s("n")), "v");
    assert_eq!(field_text(None, s("d"), s("n")), "d");
    assert_eq!(field_text(None, None, s("n")), "n");
    assert_eq!(field_text(None, None, None), "");
    assert_eq!(field_text(s(""), s("d"), None), "");
}
