//! Cross-platform focused-text-field watching: what a snapshot of the
//! focused field is, and what the watcher decides for each one.
//!
//! The watcher polls the OS for (1) which control holds keyboard focus and
//! (2) that control's plain-text value. A change of focus resets the diff
//! state and seeds it with the new field's contents, so nothing already in
//! the field is read back; otherwise the text goes through the diffing
//! engine. While watching is switched off the state is kept empty, so
//! flipping it back on does not re-voice the buffer.

use vstd::prelude::*;

use crate::diffing::{evaluate, evaluation, utterance_of, SpeakEvent, TypingState, TypingView, Utterance};

verus! {

/// Opaque identifier for a focused control. Used to detect "focus moved
/// to a different field" so the diff state can be reset without voicing
/// the pre-existing contents of the new field.
#[derive(Debug, Clone, PartialEq, Eq, Hash)]
pub struct FocusId(pub String);

impl Default for FocusId {
    fn default() -> (r: Self)
        ensures
            r.0@ == Seq::<char>::empty(),
    {
        FocusId(String::new())
    }
}

/// A single snapshot of whatever text field currently owns focus.
pub struct FocusSnapshot {
    pub id: FocusId,
    pub text: String,
}

/// Platform-specific probe. Each platform builds its own `FocusProbe` that
/// knows how to take one synchronous snapshot; `None` means there is no
/// readable focused field right now.
///
/// The probe need not be `Send`: it is always constructed inside the
/// watcher thread by a factory closure (COM interfaces on Windows and the
/// AX client on macOS are tied to the thread that made them).
pub trait FocusProbe: 'static {
    fn snapshot(&mut self) -> Option<FocusSnapshot>;
}

/// A no-op probe for platforms without an accessibility integration.
pub struct NullProbe;

impl FocusProbe for NullProbe {
    fn snapshot(&mut self) -> (r: Option<FocusSnapshot>)
        ensures
            r is None,
    {
        None
    }
}

// ---------------------------------------------------------------------------
// The watcher's decisions
// ---------------------------------------------------------------------------

/// The diff state of the watched field together with the identity of the
/// field it belongs to; no identity before the first snapshot after start
/// or after a pause.
pub struct FieldTracker {
    pub state: TypingState,
    pub current_focus: Option<FocusId>,
}

/// The contents of a `FieldTracker`.
pub struct TrackerView {
    pub typing: TypingView,
    pub focus: Option<Seq<char>>,
}

impl View for FieldTracker {
    type V = TrackerView;

    open spec fn view(&self) -> TrackerView {
        TrackerView {
            typing: self.state@,
            focus: match self.current_focus {
                Some(id) => Some(id.0@),
                None => None,
            },
        }
    }
}

/// The tracker of a watcher that has seen nothing.
pub open spec fn fresh_tracker() -> TrackerView {
    TrackerView { typing: TypingView::empty(), focus: None }
}

/// The event and the next tracker state for a snapshot of the field `id`
/// holding `text`.
pub open spec fn observation(t: TrackerView, id: Seq<char>, text: Seq<char>) -> (
    Option<Utterance>,
    TrackerView,
) {
    if t.focus != Some(id) {
        (None, TrackerView { typing: TypingView::empty().with_text(text), focus: Some(id) })
    } else {
        let (ev, typing) = evaluation(text, t.typing);
        (ev, TrackerView { typing, focus: t.focus })
    }
}

/// One poll of the watcher: switched off, it forgets everything; switched
/// on without a readable field, nothing changes; otherwise the snapshot is
/// observed.
pub open spec fn poll_step(t: TrackerView, enabled: bool, snap: Option<(Seq<char>, Seq<char>)>) -> (
    Option<Utterance>,
    TrackerView,
) {
    if !enabled {
        (None, fresh_tracker())
    } else {
        match snap {
            None => (None, t),
            Some((id, text)) => observation(t, id, text),
        }
    }
}

/// A snapshot as its field's key and text.
pub open spec fn snapshot_view(s: Option<FocusSnapshot>) -> Option<(Seq<char>, Seq<char>)> {
    match s {
        Some(snap) => Some((snap.id.0@, snap.text@)),
        None => None,
    }
}

impl FieldTracker {
    pub fn new() -> (r: Self)
        ensures
            r@ == fresh_tracker(),
    {
        FieldTracker { state: TypingState::new(), current_focus: None }
    }

    /// Watching is switched off: forget everything, so the buffer is not
    /// re-voiced when it is switched back on.
    pub fn pause(&mut self)
        ensures
            final(self)@ == fresh_tracker(),
    {
        self.state.reset();
        self.current_focus = None;
    }

    /// Feed one snapshot: a field other than the one tracked (or the first
    /// one seen) is only remembered; the same field is diffed and may yield
    /// an event to speak.
    pub fn observe(&mut self, snap: FocusSnapshot) -> (r: Option<SpeakEvent>)
        ensures
            (utterance_of(r), final(self)@) == observation(old(self)@, snap.id.0@, snap.text@),
    {
        let same_field = match &self.current_focus {
            Some(id) => id.0 == snap.id.0,
            None => false,
        };
        if !same_field {
            self.current_focus = Some(snap.id);
            self.state.reset();
            // Seed with the new field's current value so what was already
            // there is not read back.
            self.state.last_text = snap.text;
            return None;
        }
        evaluate(snap.text.as_str(), &mut self.state)
    }

    /// One poll of the watcher, given whether watching is switched on and
    /// what the probe saw (the probe is only asked while it is).
    pub fn poll(&mut self, enabled: bool, snapshot: Option<FocusSnapshot>) -> (r: Option<SpeakEvent>)
        ensures
            (utterance_of(r), final(self)@) == poll_step(old(self)@, enabled, snapshot_view(snapshot)),
    {
        if !enabled {
            // Make sure the buffer is not re-voiced when watching resumes.
            self.pause();
            return None;
        }
        match snapshot {
            Some(snap) => self.observe(snap),
            None => None,
        }
    }
}

/// After focus moves to a field, its contents as they were are never
/// voiced: the switch itself is silent, and the same snapshot seen again is
/// silent too.
pub proof fn law_new_field_is_not_read_back(t: TrackerView, id: Seq<char>, text: Seq<char>)
    requires
        t.focus != Some(id),
    ensures
        observation(t, id, text).0 is None,
        observation(observation(t, id, text).1, id, text) == (
            None::<Utterance>,
            observation(t, id, text).1,
        ),
{
}

/// Whatever was tracked before, when focus moves to another field nothing
/// is spoken and the tracker holds exactly the new field, seeded with its
/// text: no word or sentence remembered from the old field carries over.
pub proof fn law_focus_change_forgets_old_field(t: TrackerView, id: Seq<char>, text: Seq<char>)
    requires
        t.focus != Some(id),
    ensures
        observation(t, id, text) == (
            None::<Utterance>,
            TrackerView {
                typing: TypingView { last_text: text, last_word: None, last_sentence: None },
                focus: Some(id),
            },
        ),
{
}

/// A poll made while watching is switched off speaks nothing and leaves a
/// tracker that has seen nothing, whatever the tracker held and whatever the
/// probe saw, including no snapshot at all.
pub proof fn law_paused_poll_forgets(
    t: TrackerView,
    snap: Option<(Seq<char>, Seq<char>)>,
)
    ensures
        poll_step(t, false, snap) == (
            None::<Utterance>,
            TrackerView {
                typing: TypingView { last_text: Seq::empty(), last_word: None, last_sentence: None },
                focus: None,
            },
        ),
{
}

/// Switching watching back on never re-voices what a field already holds:
/// while switched off nothing is spoken and everything is forgotten, and
/// the first snapshot afterwards, of any field, is silent and only seeds
/// the diff state.
pub proof fn law_resume_is_silent(t: TrackerView, id: Seq<char>, text: Seq<char>)
    ensures
        poll_step(t, false, Some((id, text))) == (None::<Utterance>, fresh_tracker()),
        observation(fresh_tracker(), id, text).0 is None,
        observation(fresh_tracker(), id, text).1.typing == TypingView::empty().with_text(text),
{
}

// ---------------------------------------------------------------------------
// Poll interval
// ---------------------------------------------------------------------------

/// The poll interval a new watcher starts with, in milliseconds.
pub const DEFAULT_POLL_MS: u64 = 100;

/// The shortest poll interval the watcher accepts, in milliseconds.
pub const MIN_POLL_MS: u64 = 20;

/// The longest poll interval the watcher accepts, in milliseconds.
pub const MAX_POLL_MS: u64 = 2000;

/// The poll interval the watcher uses when `ms` is asked for: `ms` clamped
/// to `MIN_POLL_MS..=MAX_POLL_MS`.
pub fn poll_interval_ms(ms: u64) -> (r: u64)
    ensures
        MIN_POLL_MS <= r <= MAX_POLL_MS,
        ms < MIN_POLL_MS ==> r == MIN_POLL_MS,
        ms > MAX_POLL_MS ==> r == MAX_POLL_MS,
        MIN_POLL_MS <= ms <= MAX_POLL_MS ==> r == ms,
{
    if ms < MIN_POLL_MS {
        MIN_POLL_MS
    } else if ms > MAX_POLL_MS {
        MAX_POLL_MS
    } else {
        ms
    }
}

// ---------------------------------------------------------------------------
// Identity keys of focused elements
// ---------------------------------------------------------------------------

/// The digit for `d` (below 16): `0`-`9`, then `a`-`f`.
pub open spec fn digit_char(d: nat) -> char {
    seq!['0', '1', '2', '3', '4', '5', '6', '7', '8', '9', 'a', 'b', 'c', 'd', 'e', 'f'][d as int]
}

/// `n` in decimal, without leading zeros.
pub open spec fn decimal_text(n: nat) -> Seq<char>
    decreases n,
{
    if n < 10 {
        seq![digit_char(n)]
    } else {
        decimal_text(n / 10).push(digit_char(n % 10))
    }
}

/// `n` in lower-case hexadecimal, without leading zeros.
pub open spec fn hex_text(n: nat) -> Seq<char>
    decreases n,
{
    if n < 16 {
        seq![digit_char(n)]
    } else {
        hex_text(n / 16).push(digit_char(n % 16))
    }
}

/// `n` in decimal, with a leading `-` when negative.
pub open spec fn signed_decimal_text(n: int) -> Seq<char> {
    if n < 0 {
        seq!['-'] + decimal_text((-n) as nat)
    } else {
        decimal_text(n as nat)
    }
}

/// The 32-bit two's complement pattern of `n`, as a number.
pub open spec fn bit_pattern(n: i32) -> nat {
    if n < 0 {
        (n + 0x1_0000_0000) as nat
    } else {
        n as nat
    }
}

/// A UI Automation runtime id as text: each part in lower-case hexadecimal
/// (two's complement for negative parts), each followed by `-`.
pub open spec fn runtime_id_text(rid: Seq<i32>) -> Seq<char>
    decreases rid.len(),
{
    if rid.len() == 0 {
        Seq::empty()
    } else {
        runtime_id_text(rid.drop_last()) + hex_text(bit_pattern(rid.last())) + seq!['-']
    }
}

/// The key of an element known by process id, control type and name:
/// `pid<pid>-ct<control type>-<name>`.
pub open spec fn element_key_text(pid: u32, control_type: i32, name: Seq<char>) -> Seq<char> {
    seq!['p', 'i', 'd'] + decimal_text(pid as nat) + seq!['-', 'c', 't'] + signed_decimal_text(
        control_type as int,
    ) + seq!['-'] + name
}

/// The key of an accessibility element known by process id, role and
/// title: `pid<pid>-<role>-<title>`.
pub open spec fn ax_element_key_text(pid: i32, role: Seq<char>, title: Seq<char>) -> Seq<char> {
    seq!['p', 'i', 'd'] + signed_decimal_text(pid as int) + seq!['-'] + role + seq!['-'] + title
}

fn digit_str(d: u32) -> (r: &'static str)
    requires
        d < 16,
    ensures
        r@ == seq![digit_char(d as nat)],
{
    let digits = "0123456789abcdef";
    proof {
        reveal_strlit("0123456789abcdef");
    }
    let r = digits.substring_char(d as usize, d as usize + 1);
    assert(r@ =~= seq![digit_char(d as nat)]);
    r
}

fn push_decimal(n: u32, out: &mut String)
    ensures
        final(out)@ == old(out)@ + decimal_text(n as nat),
    decreases n,
{
    if n >= 10 {
        push_decimal(n / 10, out);
    }
    out.append(digit_str(n % 10));
    assert(old(out)@ + decimal_text(n as nat) =~= if n >= 10 {
        old(out)@ + decimal_text((n / 10) as nat) + seq![digit_char((n % 10) as nat)]
    } else {
        old(out)@ + seq![digit_char((n % 10) as nat)]
    });
}

fn push_hex(n: u32, out: &mut String)
    ensures
        final(out)@ == old(out)@ + hex_text(n as nat),
    decreases n,
{
    if n >= 16 {
        push_hex(n / 16, out);
    }
    out.append(digit_str(n % 16));
    assert(old(out)@ + hex_text(n as nat) =~= if n >= 16 {
        old(out)@ + hex_text((n / 16) as nat) + seq![digit_char((n % 16) as nat)]
    } else {
        old(out)@ + seq![digit_char((n % 16) as nat)]
    });
}

fn push_signed_decimal(n: i32, out: &mut String)
    ensures
        final(out)@ == old(out)@ + signed_decimal_text(n as int),
{
    if n < 0 {
        out.append("-");
        proof {
            reveal_strlit("-");
        }
        let magnitude = (0 - (n as i64)) as u32;
        push_decimal(magnitude, out);
        assert(old(out)@ + signed_decimal_text(n as int) =~= old(out)@ + seq!['-'] + decimal_text(
            magnitude as nat,
        ));
    } else {
        push_decimal(n as u32, out);
    }
}

/// The key of a focused element from its UI Automation runtime id.
pub fn runtime_id_key(rid: &Vec<i32>) -> (r: String)
    ensures
        r@ == runtime_id_text(rid@),
{
    let mut s = String::new();
    let mut i: usize = 0;
    while i < rid.len()
        invariant
            i <= rid.len(),
            s@ == runtime_id_text(rid@.take(i as int)),
        decreases rid.len() - i,
    {
        let n = rid[i];
        let pattern: u32 = if n < 0 {
            (n as i64 + 0x1_0000_0000i64) as u32
        } else {
            n as u32
        };
        push_hex(pattern, &mut s);
        s.append("-");
        proof {
            reveal_strlit("-");
            assert(rid@.take(i + 1).drop_last() =~= rid@.take(i as int));
        }
        i = i + 1;
    }
    assert(rid@.take(rid.len() as int) =~= rid@);
    s
}

/// The key of a focused element known by process id, control type and name.
pub fn element_key(pid: u32, control_type: i32, name: &str) -> (r: String)
    ensures
        r@ == element_key_text(pid, control_type, name@),
{
    let mut s = String::new();
    s.append("pid");
    push_decimal(pid, &mut s);
    s.append("-ct");
    push_signed_decimal(control_type, &mut s);
    s.append("-");
    s.append(name);
    proof {
        reveal_strlit("pid");
        reveal_strlit("-ct");
        reveal_strlit("-");
    }
    assert(s@ =~= element_key_text(pid, control_type, name@));
    s
}

/// The key of a focused accessibility element known by process id, role
/// and title.
pub fn ax_element_key(pid: i32, role: &str, title: &str) -> (r: String)
    ensures
        r@ == ax_element_key_text(pid, role@, title@),
{
    let mut s = String::new();
    s.append("pid");
    push_signed_decimal(pid, &mut s);
    s.append("-");
    s.append(role);
    s.append("-");
    s.append(title);
    proof {
        reveal_strlit("pid");
        reveal_strlit("-");
    }
    assert(s@ =~= ax_element_key_text(pid, role@, title@));
    s
}

// ---------------------------------------------------------------------------
// What a probe makes of the focused element's answers
// ---------------------------------------------------------------------------

/// Whether a focused field may be read: never when it reports holding a
/// password; an unknown answer (`None`) does not stop it.
pub fn may_read_field(is_password: Option<bool>) -> (r: bool)
    ensures
        r == (is_password != Some(true)),
{
    match is_password {
        Some(true) => false,
        _ => true,
    }
}

/// The key of a UI Automation element: from its runtime id when it has one,
/// else from its process id, control type and name, else empty.
pub open spec fn focus_key_text(
    runtime_id: Option<Seq<i32>>,
    pid: Option<u32>,
    control_type: i32,
    name: Seq<char>,
) -> Seq<char> {
    match runtime_id {
        Some(rid) => runtime_id_text(rid),
        None => match pid {
            Some(p) => element_key_text(p, control_type, name),
            None => Seq::empty(),
        },
    }
}

/// The key of a focused UI Automation element, from what it reported.
pub fn focus_key(
    runtime_id: Option<Vec<i32>>,
    pid: Option<u32>,
    control_type: i32,
    name: &str,
) -> (r: String)
    ensures
        r@ == focus_key_text(
            match runtime_id {
                Some(v) => Some(v@),
                None => None,
            },
            pid,
            control_type,
            name@,
        ),
{
    match runtime_id {
        Some(rid) => runtime_id_key(&rid),
        None => match pid {
            Some(p) => element_key(p, control_type, name),
            None => String::new(),
        },
    }
}

/// The text of a focused field: its value when it has one, else its
/// document text, else its name, else empty.
pub open spec fn field_text_of(
    value: Option<Seq<char>>,
    document: Option<Seq<char>>,
    name: Option<Seq<char>>,
) -> Seq<char> {
    match value {
        Some(v) => v,
        None => match document {
            Some(d) => d,
            None => match name {
                Some(n) => n,
                None => Seq::empty(),
            },
        },
    }
}

/// The text of a focused field, from what it reported, in order of
/// preference.
pub fn field_text(
    value: Option<String>,
    document: Option<String>,
    name: Option<String>,
) -> (r: String)
    ensures
        r@ == field_text_of(value.deep_view(), document.deep_view(), name.deep_view()),
{
    match value {
        Some(v) => v,
        None => match document {
            Some(d) => d,
            None => match name {
                Some(n) => n,
                None => String::new(),
            },
        },
    }
}

} // verus!
