//! Diffing engine: compares the latest snapshot of a focused text field
//! against the previous one and decides whether a *word* or a *sentence*
//! was just completed, which are the two events worth voicing.
//!
//! * The newly added region is the tail of the new text after its longest
//!   common prefix (in characters) with the previous text, so edits in the
//!   middle of a field and multi-byte characters are handled alike.
//! * A word is complete when the new text ends in a word boundary
//!   (whitespace); a sentence when it ends in `.`, `!`, `?` or their
//!   full-width forms.
//! * The last spoken sentence is remembered, so the same sentence is never
//!   voiced twice in a row; an unchanged snapshot never speaks.
//! * A pure shrink (the new text is a prefix of the old) only updates the
//!   remembered text.

use vstd::prelude::*;

use crate::text::{
    char_alphanumeric, char_is_alphanumeric, char_is_whitespace, chars_of, common_prefix_len,
    is_white_space, last_index_where, lemma_common_prefix_len, lemma_common_prefix_len_is,
    lemma_trim_by_flags, lemma_trim_end_len, lemma_trim_end_len_is, lemma_last_index_where_is, lemma_trim_start_len, lemma_last_index_where,
    trim_end_len, trim_start_len, after_last_pos, strip_span, trim_by, trim_end_by,
    trim_end_pos, trim_start_pos, white_space,
};

verus! {

// ---------------------------------------------------------------------------
// Events and state
// ---------------------------------------------------------------------------

/// An event that should be voiced by the TTS engine.
#[derive(Debug, Clone, PartialEq, Eq)]
pub enum SpeakEvent {
    /// A single word was just completed (space / newline / tab).
    Word(String),
    /// A full sentence was just completed (`.`, `!`, `?`).
    Sentence(String),
}

/// What a `SpeakEvent` says.
pub enum Utterance {
    Word(Seq<char>),
    Sentence(Seq<char>),
}

impl Utterance {
    pub open spec fn text(self) -> Seq<char> {
        match self {
            Utterance::Word(s) => s,
            Utterance::Sentence(s) => s,
        }
    }
}

impl View for SpeakEvent {
    type V = Utterance;

    open spec fn view(&self) -> Utterance {
        match self {
            SpeakEvent::Word(s) => Utterance::Word(s@),
            SpeakEvent::Sentence(s) => Utterance::Sentence(s@),
        }
    }
}

/// What an optional event says.
pub open spec fn utterance_of(e: Option<SpeakEvent>) -> Option<Utterance> {
    match e {
        Some(ev) => Some(ev@),
        None => None,
    }
}

impl SpeakEvent {
    /// The text to voice.
    pub fn text(&self) -> (r: &str)
        ensures
            r@ == self@.text(),
    {
        match self {
            SpeakEvent::Word(s) => s.as_str(),
            SpeakEvent::Sentence(s) => s.as_str(),
        }
    }

    /// Whether voicing this event cancels what is being spoken: sentences
    /// interrupt any word still being read out, so the writer hears a clean
    /// read-back; words never interrupt each other, so rapid typing queues.
    pub fn interrupts(&self) -> (r: bool)
        ensures
            r == (self@ is Sentence),
    {
        match self {
            SpeakEvent::Word(_) => false,
            SpeakEvent::Sentence(_) => true,
        }
    }
}

/// Rolling state for one focused text field.
#[derive(Debug, Clone)]
pub struct TypingState {
    pub last_text: String,
    pub last_spoken_word: Option<String>,
    pub last_spoken_sentence: Option<String>,
}

/// The contents of a `TypingState`.
pub struct TypingView {
    pub last_text: Seq<char>,
    pub last_word: Option<Seq<char>>,
    pub last_sentence: Option<Seq<char>>,
}

impl TypingView {
    /// The state of a field nothing has been seen in.
    pub open spec fn empty() -> TypingView {
        TypingView { last_text: Seq::empty(), last_word: None, last_sentence: None }
    }

    /// This state, remembering `text` as the field's contents.
    pub open spec fn with_text(self, text: Seq<char>) -> TypingView {
        TypingView { last_text: text, last_word: self.last_word, last_sentence: self.last_sentence }
    }
}

impl View for TypingState {
    type V = TypingView;

    open spec fn view(&self) -> TypingView {
        TypingView {
            last_text: self.last_text@,
            last_word: self.last_spoken_word.deep_view(),
            last_sentence: self.last_spoken_sentence.deep_view(),
        }
    }
}

impl TypingState {
    pub fn new() -> (r: Self)
        ensures
            r@ == TypingView::empty(),
    {
        TypingState { last_text: String::new(), last_spoken_word: None, last_spoken_sentence: None }
    }

    /// Wipe state. Call when focus moves to a *different* text field so
    /// the first snapshot in the new field doesn't get voiced.
    pub fn reset(&mut self)
        ensures
            final(self)@ == TypingView::empty(),
    {
        self.last_text = String::new();
        self.last_spoken_word = None;
        self.last_spoken_sentence = None;
    }
}

impl Default for TypingState {
    fn default() -> (r: Self)
        ensures
            r@ == TypingView::empty(),
    {
        TypingState::new()
    }
}

// ---------------------------------------------------------------------------
// What the engine decides, stated
// ---------------------------------------------------------------------------

/// The characters that end a sentence.
pub open spec fn is_sentence_ender_char(c: char) -> bool {
    c == '.' || c == '!' || c == '?' || c == '\u{3002}' || c == '\u{ff01}' || c == '\u{ff1f}'
}

pub open spec fn sentence_ender() -> spec_fn(char) -> bool {
    |c: char| is_sentence_ender_char(c)
}

/// The characters that complete a word.
pub open spec fn is_word_boundary_char(c: char) -> bool {
    is_white_space(c) || c == '\t' || c == '\n'
}

/// The characters a spoken word keeps at its ends: letters, digits and the
/// apostrophe. Surrounding punctuation ("hello,") is dropped.
pub open spec fn is_word_char(c: char) -> bool {
    char_is_alphanumeric(c) || c == '\''
}

pub open spec fn not_word_char() -> spec_fn(char) -> bool {
    |c: char| !is_word_char(c)
}

/// The most recently completed word of `text`: everything after the last
/// whitespace once trailing whitespace is trimmed, with surrounding
/// punctuation removed. Empty when there is no such word.
pub open spec fn completed_word(text: Seq<char>) -> Seq<char> {
    let trimmed = trim_end_by(text, white_space());
    let start = last_index_where(trimmed, white_space()) + 1;
    trim_by(trimmed.skip(start), not_word_char())
}

/// The sentence that just ended in `text`: from just after the previous
/// sentence ender (ignoring the run of enders at the very end) to the end
/// of the text, trimmed of whitespace. Empty when there is no such sentence.
pub open spec fn completed_sentence(text: Seq<char>) -> Seq<char> {
    let trimmed = trim_end_by(text, white_space());
    let body = trim_end_by(trimmed, sentence_ender());
    let start = last_index_where(body, sentence_ender()) + 1;
    trim_by(trimmed.skip(start), white_space())
}

/// Whether `s` ends with `w`.
pub open spec fn ends_with(s: Seq<char>, w: Seq<char>) -> bool {
    w.len() <= s.len() && s.skip(s.len() - w.len()) == w
}

/// Voicing the completed word of `text`, unless there is none or it is a
/// repeat: the word spoken last, with the remembered text ending in it
/// (the same word arriving again within one field's snapshots).
pub open spec fn word_outcome(text: Seq<char>, st: TypingView) -> (Option<Utterance>, TypingView) {
    let w = completed_word(text);
    if w.len() == 0 || (st.last_word == Some(w) && ends_with(st.last_text, w)) {
        (None, st)
    } else {
        (
            Some(Utterance::Word(w)),
            TypingView { last_text: st.last_text, last_word: Some(w), last_sentence: st.last_sentence },
        )
    }
}

/// Voicing the completed sentence of `text`, unless there is none or it is
/// the sentence spoken last.
pub open spec fn sentence_outcome(text: Seq<char>, st: TypingView) -> (
    Option<Utterance>,
    TypingView,
) {
    let s = completed_sentence(text);
    if s.len() == 0 || st.last_sentence == Some(s) {
        (None, st)
    } else {
        (
            Some(Utterance::Sentence(s)),
            TypingView { last_text: st.last_text, last_word: st.last_word, last_sentence: Some(s) },
        )
    }
}

/// The event and the next state for a new snapshot `new` of a field in
/// state `st`.
pub open spec fn evaluation(new: Seq<char>, st: TypingView) -> (Option<Utterance>, TypingView) {
    if new == st.last_text {
        (None, st)
    } else if common_prefix_len(st.last_text, new) == new.len() {
        (None, st.with_text(new))
    } else {
        let c = new.last();
        let outcome = if is_sentence_ender_char(c) {
            sentence_outcome(new, st)
        } else if is_word_boundary_char(c) {
            word_outcome(new, st)
        } else {
            (None, st)
        };
        (outcome.0, outcome.1.with_text(new))
    }
}

// ---------------------------------------------------------------------------
// The engine
// ---------------------------------------------------------------------------

fn is_word_boundary(c: char) -> (r: bool)
    ensures
        r == is_word_boundary_char(c),
{
    char_is_whitespace(c) || c == '\t' || c == '\n'
}

fn is_sentence_ender(c: char) -> (r: bool)
    ensures
        r == is_sentence_ender_char(c),
{
    c == '.' || c == '!' || c == '?' || c == '\u{3002}' || c == '\u{ff01}' || c == '\u{ff1f}'
}

/// The number of leading characters `a` and `b` have in common.
fn common_prefix(a: &Vec<char>, b: &Vec<char>) -> (r: usize)
    ensures
        r == common_prefix_len(a@, b@),
{
    let mut n: usize = 0;
    while n < a.len() && n < b.len() && a[n] == b[n]
        invariant
            n <= a.len(),
            n <= b.len(),
            forall|j: int| 0 <= j < n ==> #[trigger] a@[j] == b@[j],
        decreases a.len() - n,
    {
        n = n + 1;
    }
    proof {
        lemma_common_prefix_len_is(a@, b@, n as int);
    }
    n
}

/// Whether `s` ends with `w`.
fn ends_with_chars(s: &String, w: &String) -> (r: bool)
    ensures
        r == ends_with(s@, w@),
{
    let sc = chars_of(s.as_str());
    let wc = chars_of(w.as_str());
    if wc.len() > sc.len() {
        return false;
    }
    let off = sc.len() - wc.len();
    let mut i: usize = 0;
    while i < wc.len()
        invariant
            i <= wc.len(),
            off + wc.len() == sc.len(),
            sc@ == s@,
            wc@ == w@,
            forall|j: int| 0 <= j < i ==> #[trigger] wc@[j] == sc@[off + j],
        decreases wc.len() - i,
    {
        if sc[off + i] != wc[i] {
            assert(s@.skip(off as int)[i as int] == sc@[off + i]);
            return false;
        }
        i = i + 1;
    }
    assert(s@.skip(off as int) =~= w@);
    true
}

/// Evaluate a text change and return an event to speak, if any.
pub fn evaluate(new_text: &str, state: &mut TypingState) -> (r: Option<SpeakEvent>)
    ensures
        (utterance_of(r), final(state)@) == evaluation(new_text@, old(state)@),
{
    let new_chars = chars_of(new_text);
    let old_chars = chars_of(state.last_text.as_str());
    let prefix = common_prefix(&old_chars, &new_chars);
    proof {
        lemma_common_prefix_len(old_chars@, new_chars@);
        if new_chars@ == old_chars@ {
            assert(prefix == new_chars@.len());
        }
    }
    if prefix == new_chars.len() && prefix == old_chars.len() {
        assert(new_chars@ =~= old_chars@);
        return None;
    }
    if prefix == new_chars.len() {
        // Pure shrink / backspace with no new content: remember and exit.
        state.last_text = new_text.to_owned();
        return None;
    }
    // Speak only on completion: the newly typed region must end in a
    // boundary character (space or sentence ender).
    let last_added = new_chars[new_chars.len() - 1];
    let event = if is_sentence_ender(last_added) {
        extract_sentence(new_text, state)
    } else if is_word_boundary(last_added) {
        extract_word(new_text, state)
    } else {
        None
    };
    state.last_text = new_text.to_owned();
    event
}

/// The most recently completed word in `text`, remembered in `state`.
fn extract_word(text: &str, state: &mut TypingState) -> (r: Option<SpeakEvent>)
    ensures
        (utterance_of(r), final(state)@) == word_outcome(text@, old(state)@),
{
    let chars = chars_of(text);
    let ghost all = chars@;
    let n = chars.len();
    let end = trim_end_pos(&chars, 0, n, char_is_whitespace, Ghost(white_space()));
    assert(all.subrange(0, n as int) =~= all);
    let ghost trimmed = all.take(end as int);
    if end == 0 {
        proof {
            assert(trimmed.skip(0).len() == 0);
            lemma_trim_end_len(trimmed.skip(0), not_word_char());
        }
        return None;
    }
    // The last word is everything after the last whitespace in `trimmed`.
    let start = after_last_pos(&chars, 0, end, char_is_whitespace, Ghost(white_space()));
    let ghost seg = all.subrange(start as int, end as int);
    assert(seg =~= trimmed.skip(start as int));
    // Strip surrounding punctuation that would make "hello," speak oddly.
    let mut strip: Vec<bool> = Vec::new();
    let mut i = start;
    while i < end
        invariant
            start <= i <= end <= chars.len(),
            all == chars@,
            seg == all.subrange(start as int, end as int),
            strip@.len() == i - start,
            forall|j: int| 0 <= j < strip@.len() ==> #[trigger] strip@[j] == not_word_char()(seg[j]),
        decreases end - i,
    {
        let c = chars[i];
        let keep = char_alphanumeric(c) || c == '\'';
        strip.push(!keep);
        i = i + 1;
    }
    let (a, b) = strip_span(&strip);
    proof {
        lemma_trim_by_flags(seg, not_word_char(), strip@);
        assert(trim_by(seg, not_word_char()) =~= seg.subrange(a as int, b as int));
    }
    if a == b {
        return None;
    }
    let word = text.substring_char(start + a, start + b).to_owned();
    assert(word@ =~= seg.subrange(a as int, b as int));
    // De-dup: the very same word just spoken, still at the end of the
    // remembered text (polling jitter), is skipped.
    let repeated = match &state.last_spoken_word {
        Some(prev) => *prev == word && ends_with_chars(&state.last_text, &word),
        None => false,
    };
    if repeated {
        return None;
    }
    state.last_spoken_word = Some(word.clone());
    Some(SpeakEvent::Word(word))
}

/// The sentence that just ended in `text`, unless it is the one spoken
/// last; remembered in `state`.
fn extract_sentence(text: &str, state: &mut TypingState) -> (r: Option<SpeakEvent>)
    ensures
        (utterance_of(r), final(state)@) == sentence_outcome(text@, old(state)@),
{
    let chars = chars_of(text);
    let ghost all = chars@;
    let n = chars.len();
    let end = trim_end_pos(&chars, 0, n, char_is_whitespace, Ghost(white_space()));
    assert(all.subrange(0, n as int) =~= all);
    let ghost trimmed = all.take(end as int);
    if end == 0 {
        proof {
            assert(trimmed.skip(0).len() == 0);
            lemma_trim_end_len(trimmed.skip(0), white_space());
        }
        return None;
    }
    // Walk backwards past the terminal punctuation, then find the end of
    // the previous sentence.
    let body_end = trim_end_pos(&chars, 0, end, is_sentence_ender, Ghost(sentence_ender()));
    assert(all.subrange(0, end as int) =~= trimmed);
    let ghost body = trimmed.take(body_end as int);
    assert(all.subrange(0, body_end as int) =~= body);
    let start = after_last_pos(&chars, 0, body_end, is_sentence_ender, Ghost(sentence_ender()));
    let ghost seg = all.subrange(start as int, end as int);
    assert(seg =~= trimmed.skip(start as int));
    let s_end = trim_end_pos(&chars, start, end, char_is_whitespace, Ghost(white_space()));
    let s_start = trim_start_pos(&chars, start, s_end, char_is_whitespace, Ghost(white_space()));
    proof {
        assert(all.subrange(start as int, s_end as int) =~= trim_end_by(seg, white_space()));
        assert(trim_by(seg, white_space()) =~= all.subrange(s_start as int, s_end as int));
    }
    if s_start == s_end {
        return None;
    }
    let sentence = text.substring_char(s_start, s_end).to_owned();
    assert(sentence@ =~= trim_by(seg, white_space()));
    match &state.last_spoken_sentence {
        Some(prev) => {
            if *prev == sentence {
                return None;
            }
        },
        None => {},
    }
    state.last_spoken_sentence = Some(sentence.clone());
    Some(SpeakEvent::Sentence(sentence))
}

// ---------------------------------------------------------------------------
// Laws
// ---------------------------------------------------------------------------

/// Every evaluation remembers the snapshot it was given, so the same
/// snapshot arriving again (polling jitter) is silent and changes nothing.
pub proof fn law_repeated_snapshot_is_silent(new: Seq<char>, st: TypingView)
    ensures
        evaluation(new, st).1.last_text == new,
        evaluation(new, evaluation(new, st).1) == (None::<Utterance>, evaluation(new, st).1),
{
}

/// The common prefix of two texts does not depend on their order.
pub proof fn law_common_prefix_symmetric(a: Seq<char>, b: Seq<char>)
    ensures
        common_prefix_len(a, b) == common_prefix_len(b, a),
{
    lemma_common_prefix_len(a, b);
    let n = common_prefix_len(a, b) as int;
    assert forall|j: int| 0 <= j < n implies #[trigger] b[j] == a[j] by {
        assert(a[j] == b[j]);
    }
    lemma_common_prefix_len_is(b, a, n);
}

/// Backspace and other pure shrinks never speak: when the new text is a
/// prefix of the previous one, only the remembered text changes.
pub proof fn law_shrink_is_silent(new: Seq<char>, st: TypingView)
    requires
        new.len() <= st.last_text.len(),
        new == st.last_text.take(new.len() as int),
    ensures
        evaluation(new, st) == (None::<Utterance>, st.with_text(new)),
{
    assert forall|j: int| 0 <= j < new.len() implies #[trigger] st.last_text[j] == new[j] by {
        assert(new[j] == st.last_text.take(new.len() as int)[j]);
    }
    lemma_common_prefix_len_is(st.last_text, new, new.len() as int);
    if new == st.last_text {
        assert(st.with_text(new) == st);
    }
}

/// Something is spoken only on completion: a sentence exactly when the new
/// text ends in a sentence ender, a word only when it ends in a word
/// boundary. An edit ending in any other character (such as a paste in the
/// middle of the field) is silent. What is spoken is never empty.
pub proof fn law_speaks_only_on_completion(new: Seq<char>, st: TypingView)
    ensures
        evaluation(new, st).0 matches Some(u) ==> {
            &&& new != st.last_text
            &&& new.len() > 0
            &&& u.text().len() > 0
            &&& (u is Sentence ==> is_sentence_ender_char(new.last()))
            &&& (u is Word ==> is_word_boundary_char(new.last()) && !is_sentence_ender_char(
                new.last(),
            ))
        },
        new.len() > 0 && !is_sentence_ender_char(new.last()) && !is_word_boundary_char(new.last())
            ==> evaluation(new, st).0 is None,
{
    lemma_common_prefix_len(st.last_text, new);
}

/// The same sentence is never voiced twice in a row, nor the word just
/// spoken while the remembered text still ends in it; whatever is voiced
/// is remembered as the last word or the last sentence spoken.
pub proof fn law_spoken_is_remembered(new: Seq<char>, st: TypingView)
    ensures
        evaluation(new, st).0 matches Some(Utterance::Sentence(s)) ==> {
            &&& st.last_sentence != Some(s)
            &&& evaluation(new, st).1.last_sentence == Some(s)
            &&& evaluation(new, st).1.last_word == st.last_word
        },
        evaluation(new, st).0 matches Some(Utterance::Word(w)) ==> {
            &&& !(st.last_word == Some(w) && ends_with(st.last_text, w))
            &&& evaluation(new, st).1.last_word == Some(w)
            &&& evaluation(new, st).1.last_sentence == st.last_sentence
        },
        evaluation(new, st).0 is None ==> {
            &&& evaluation(new, st).1.last_word == st.last_word
            &&& evaluation(new, st).1.last_sentence == st.last_sentence
        },
{
}

/// A spoken word is a piece of the text with no whitespace in it, starting
/// and ending with a letter, digit or apostrophe.
pub proof fn law_word_shape(text: Seq<char>)
    ensures
        completed_word(text).len() > 0 ==> {
            let w = completed_word(text);
            &&& is_word_char(w[0])
            &&& is_word_char(w.last())
            &&& forall|i: int| 0 <= i < w.len() ==> !is_white_space(#[trigger] w[i])
            &&& exists|k: int|
                0 <= k && k + w.len() <= text.len() && #[trigger] text.subrange(k, k + w.len()) == w
        },
{
    let trimmed = trim_end_by(text, white_space());
    lemma_trim_end_len(text, white_space());
    lemma_last_index_where(trimmed, white_space());
    let start = last_index_where(trimmed, white_space()) + 1;
    let seg = trimmed.skip(start);
    let e = trim_end_len(seg, not_word_char());
    lemma_trim_end_len(seg, not_word_char());
    let t = trim_end_by(seg, not_word_char());
    let a = trim_start_len(t, not_word_char());
    lemma_trim_start_len(t, not_word_char());
    let w = completed_word(text);
    assert(w =~= seg.subrange(a as int, e as int));
    if w.len() > 0 {
        assert(w[0] == t[a as int]);
        assert(!not_word_char()(t[a as int]));
        assert(w.last() == seg[e - 1]);
        assert(!not_word_char()(seg[e - 1]));
        assert forall|i: int| 0 <= i < w.len() implies !is_white_space(#[trigger] w[i]) by {
            assert(w[i] == trimmed[start + a + i]);
            assert(!white_space()(trimmed[start + a + i]));
        }
        let k = start + a;
        assert(text.subrange(k, k + w.len()) =~= w);
    }
}

/// A spoken sentence is a piece of the text, trimmed of whitespace, that
/// holds only the newest sentence: once a sentence ender occurs in it,
/// everything after is a sentence ender too. When the text ends in a
/// sentence ender, so does the sentence.
pub proof fn law_sentence_shape(text: Seq<char>)
    ensures
        completed_sentence(text).len() > 0 ==> {
            let s = completed_sentence(text);
            &&& !is_white_space(s[0])
            &&& !is_white_space(s.last())
            &&& forall|i: int, j: int|
                0 <= i < j < s.len() && is_sentence_ender_char(#[trigger] s[i])
                    ==> is_sentence_ender_char(#[trigger] s[j])
            &&& (is_sentence_ender_char(text.last()) ==> is_sentence_ender_char(s.last()))
            &&& exists|k: int|
                0 <= k && k + s.len() <= text.len() && #[trigger] text.subrange(k, k + s.len()) == s
        },
{
    let ws = white_space();
    let en = sentence_ender();
    lemma_trim_end_len(text, ws);
    let trimmed = trim_end_by(text, ws);
    lemma_trim_end_len(trimmed, en);
    let be = trim_end_len(trimmed, en) as int;
    let body = trim_end_by(trimmed, en);
    lemma_last_index_where(body, en);
    let start = last_index_where(body, en) + 1;
    let seg = trimmed.skip(start);
    lemma_trim_end_len(seg, ws);
    let e = trim_end_len(seg, ws);
    let t = trim_end_by(seg, ws);
    lemma_trim_start_len(t, ws);
    let a = trim_start_len(t, ws);
    let s = completed_sentence(text);
    assert(s =~= seg.subrange(a as int, e as int));
    if s.len() > 0 {
        assert(s[0] == t[a as int]);
        assert(!ws(t[a as int]));
        assert(s.last() == seg[e - 1]);
        assert(!ws(seg[e - 1]));
        assert forall|i: int, j: int|
            0 <= i < j < s.len() && is_sentence_ender_char(#[trigger] s[i])
                implies is_sentence_ender_char(#[trigger] s[j]) by {
            assert(s[i] == trimmed[start + a + i]);
            assert(s[j] == trimmed[start + a + j]);
            if start + a + i < be {
                assert(body[start + a + i] == trimmed[start + a + i]);
                assert(!en(body[start + a + i]));
            }
            assert(en(trimmed[start + a + j]));
        }
        if is_sentence_ender_char(text.last()) {
            let n = trim_end_len(text, ws) as int;
            assert(!ws(text.last()));
            if n < text.len() {
                assert(ws(text[text.len() - 1]));
            }
            assert(trimmed =~= text);
            assert(en(seg[seg.len() - 1]));
            assert(!ws(seg[seg.len() - 1]));
            if e < seg.len() {
                assert(ws(seg[seg.len() - 1]));
            }
            assert(s.last() == text.last());
        }
        let k = start + a;
        assert(text.subrange(k, k + s.len()) =~= s);
    }
}

// ---------------------------------------------------------------------------
// Which word and which sentence are spoken, characterised
// ---------------------------------------------------------------------------

/// `text[c..e)` is the last stretch of `text` without whitespace, followed
/// only by whitespace (it is empty when the text holds only whitespace).
pub open spec fn last_segment(text: Seq<char>, c: int, e: int) -> bool {
    &&& 0 <= c <= e <= text.len()
    &&& (c == 0 || is_white_space(text[c - 1]))
    &&& forall|i: int| c <= i < e ==> !is_white_space(#[trigger] text[i])
    &&& forall|i: int| e <= i < text.len() ==> is_white_space(#[trigger] text[i])
}

/// `w` is the last word of `text`: it stands at `text[k..k + |w|)` inside
/// the last stretch `text[c..e)` without whitespace, begins and ends with a
/// letter, digit or apostrophe, and only other characters lie between it
/// and the ends of that stretch. Nothing but whitespace cuts a word.
pub open spec fn spoken_word_at(text: Seq<char>, w: Seq<char>, c: int, k: int, e: int) -> bool {
    let m = k + w.len();
    &&& last_segment(text, c, e)
    &&& c <= k
    &&& 0 < w.len()
    &&& m <= e
    &&& text.subrange(k, m) == w
    &&& is_word_char(text[k])
    &&& is_word_char(text[m - 1])
    &&& forall|i: int| c <= i < k ==> !is_word_char(#[trigger] text[i])
    &&& forall|i: int| m <= i < e ==> !is_word_char(#[trigger] text[i])
}

/// `s` is the last sentence of `text`: it stands at `text[k..k + |s|)`,
/// followed only by whitespace, with no whitespace at its ends. Before it
/// lies only whitespace back to the cut `c`, which is the start of the text
/// or the position after a sentence ender that is not part of the final
/// run of enders (some non-ender, at `d`, follows it). Inside the sentence
/// every sentence ender is followed only by enders, so no earlier sentence
/// is included and no character other than a sentence ender cuts it.
pub open spec fn spoken_sentence_at(text: Seq<char>, s: Seq<char>, c: int, k: int, d: int) -> bool {
    let m = k + s.len();
    &&& 0 <= c <= k
    &&& 0 < s.len()
    &&& m <= text.len()
    &&& text.subrange(k, m) == s
    &&& (c == 0 || (is_sentence_ender_char(text[c - 1]) && c <= d < m
        && !is_sentence_ender_char(text[d])))
    &&& forall|i: int| c <= i < k ==> is_white_space(#[trigger] text[i])
    &&& forall|i: int| m <= i < text.len() ==> is_white_space(#[trigger] text[i])
    &&& !is_white_space(text[k])
    &&& !is_white_space(text[m - 1])
    &&& forall|i: int, j: int|
        k <= i < j < m && is_sentence_ender_char(#[trigger] text[i]) ==> is_sentence_ender_char(
            #[trigger] text[j],
        )
}

/// `w` is the last word of `text` (see `spoken_word_at`).
pub open spec fn is_last_word(text: Seq<char>, w: Seq<char>) -> bool {
    exists|c: int, k: int, e: int| #[trigger] spoken_word_at(text, w, c, k, e)
}

/// `s` is the last sentence of `text` (see `spoken_sentence_at`).
pub open spec fn is_last_sentence(text: Seq<char>, s: Seq<char>) -> bool {
    exists|c: int, k: int, d: int| #[trigger] spoken_sentence_at(text, s, c, k, d)
}

/// The word chosen from a text is its last word; when none is chosen, the
/// last stretch of the text without whitespace holds no letter, digit or
/// apostrophe.
pub proof fn law_completed_word_is_last_word(text: Seq<char>)
    ensures
        completed_word(text).len() > 0 ==> exists|c: int, k: int, e: int|
            #[trigger] spoken_word_at(text, completed_word(text), c, k, e),
        completed_word(text).len() == 0 ==> forall|c: int, e: int|
            #[trigger] last_segment(text, c, e) ==> forall|i: int|
                c <= i < e ==> !is_word_char(#[trigger] text[i]),
{
    let ws = white_space();
    let nw = not_word_char();
    lemma_trim_end_len(text, ws);
    let big_e = trim_end_len(text, ws) as int;
    let trimmed = trim_end_by(text, ws);
    lemma_last_index_where(trimmed, ws);
    let lidx = last_index_where(trimmed, ws);
    let start = lidx + 1;
    let seg = trimmed.skip(start);
    assert(seg =~= text.subrange(start, big_e));
    lemma_trim_end_len(seg, nw);
    let e1 = trim_end_len(seg, nw) as int;
    let t = trim_end_by(seg, nw);
    lemma_trim_start_len(t, nw);
    let a = trim_start_len(t, nw) as int;
    let w = completed_word(text);
    assert(w =~= seg.subrange(a, e1));
    // The stretch after the last whitespace is the last segment.
    assert(last_segment(text, start, big_e)) by {
        if lidx >= 0 {
            assert(trimmed[lidx] == text[lidx]);
        }
        assert forall|i: int| start <= i < big_e implies !is_white_space(#[trigger] text[i]) by {
            assert(trimmed[i] == text[i]);
            assert(!ws(trimmed[i]));
        }
        assert forall|i: int| big_e <= i < text.len() implies is_white_space(#[trigger] text[i]) by {
            assert(ws(text[i]));
        }
    }
    if w.len() > 0 {
        let k = start + a;
        let m = k + w.len();
        assert(m == start + e1);
        assert(text.subrange(k, m) =~= w);
        assert(text[k] == t[a]);
        assert(!nw(t[a]));
        assert(text[m - 1] == seg[e1 - 1]);
        assert(!nw(seg[e1 - 1]));
        assert forall|i: int| start <= i < k implies !is_word_char(#[trigger] text[i]) by {
            assert(text[i] == t[i - start]);
            assert(nw(t[i - start]));
        }
        assert forall|i: int| m <= i < big_e implies !is_word_char(#[trigger] text[i]) by {
            assert(text[i] == seg[i - start]);
            assert(nw(seg[i - start]));
        }
        assert(spoken_word_at(text, w, start, k, big_e));
    } else {
        assert forall|c: int, e: int| #[trigger] last_segment(text, c, e) implies forall|i: int|
            c <= i < e ==> !is_word_char(#[trigger] text[i]) by {
            if c < e {
                assert(!ws(text[e - 1]));
                lemma_trim_end_len_is(text, ws, e);
                assert forall|j: int| c - 1 < j < trimmed.len() implies !#[trigger] ws(trimmed[j]) by {
                    assert(trimmed[j] == text[j]);
                }
                if c > 0 {
                    assert(trimmed[c - 1] == text[c - 1]);
                }
                lemma_last_index_where_is(trimmed, ws, c - 1);
                assert forall|i: int| c <= i < e implies !is_word_char(#[trigger] text[i]) by {
                    assert(text[i] == seg[i - c]);
                    if i - c < e1 {
                        assert(seg[i - c] == t[i - c]);
                        assert(nw(t[i - c]));
                    } else {
                        assert(nw(seg[i - c]));
                    }
                }
            }
        }
    }
}

/// The sentence chosen from a text is its last sentence, and one is chosen
/// exactly when the text is not all whitespace.
pub proof fn law_completed_sentence_is_last_sentence(text: Seq<char>)
    ensures
        completed_sentence(text).len() > 0 ==> exists|c: int, k: int, d: int|
            #[trigger] spoken_sentence_at(text, completed_sentence(text), c, k, d),
        completed_sentence(text).len() == 0 <==> forall|i: int|
            0 <= i < text.len() ==> is_white_space(#[trigger] text[i]),
{
    let ws = white_space();
    let en = sentence_ender();
    lemma_trim_end_len(text, ws);
    let big_e = trim_end_len(text, ws) as int;
    let trimmed = trim_end_by(text, ws);
    lemma_trim_end_len(trimmed, en);
    let b = trim_end_len(trimmed, en) as int;
    let body = trim_end_by(trimmed, en);
    lemma_last_index_where(body, en);
    let lidx = last_index_where(body, en);
    let start = lidx + 1;
    let seg = trimmed.skip(start);
    assert(seg =~= text.subrange(start, big_e));
    lemma_trim_end_len(seg, ws);
    let e1 = trim_end_len(seg, ws) as int;
    let t = trim_end_by(seg, ws);
    lemma_trim_start_len(t, ws);
    let a = trim_start_len(t, ws) as int;
    let s = completed_sentence(text);
    assert(s =~= seg.subrange(a, e1));
    if lidx >= 0 {
        assert(body[lidx] == trimmed[lidx]);
        assert(trimmed[b - 1] == body[b - 1]);
        assert(lidx < b - 1);
    }
    if big_e > 0 {
        // The cut lies before the end of the trimmed text, whose last
        // character is not whitespace: the whole rest is kept at the end.
        assert(start < big_e) by {
            if b == big_e && lidx == big_e - 1 {
                assert(body[lidx] == trimmed[lidx]);
            }
        }
        assert(seg[seg.len() - 1] == text[big_e - 1]);
        assert(e1 == seg.len()) by {
            if e1 < seg.len() {
                assert(ws(seg[seg.len() - 1]));
            }
        }
        assert(t =~= seg);
        assert(a < e1) by {
            if a == e1 {
                assert(ws(t[e1 - 1]));
            }
        }
    } else {
        assert(seg.len() == 0);
    }
    if s.len() > 0 {
        let k = start + a;
        let m = k + s.len();
        assert(m == big_e);
        assert(text.subrange(k, m) =~= s);
        assert(text[k] == t[a]);
        assert(!ws(t[a]));
        assert(text[m - 1] == seg[e1 - 1]);
        assert forall|i: int| start <= i < k implies is_white_space(#[trigger] text[i]) by {
            assert(text[i] == t[i - start]);
            assert(ws(t[i - start]));
        }
        assert forall|i: int| m <= i < text.len() implies is_white_space(#[trigger] text[i]) by {
            assert(ws(text[i]));
        }
        assert forall|i: int, j: int|
            k <= i < j < m && is_sentence_ender_char(#[trigger] text[i])
                implies is_sentence_ender_char(#[trigger] text[j]) by {
            if i < b {
                assert(body[i] == trimmed[i]);
                assert(trimmed[i] == text[i]);
                assert(!en(body[i]));
            }
            assert(trimmed[j] == text[j]);
            assert(en(trimmed[j]));
        }
        let d = b - 1;
        if start > 0 {
            assert(text[start - 1] == body[lidx]);
            assert(text[d] == trimmed[d]);
        }
        assert(spoken_sentence_at(text, s, start, k, d));
    }
    if forall|i: int| 0 <= i < text.len() ==> is_white_space(#[trigger] text[i]) {
        if big_e > 0 {
            assert(is_white_space(text[big_e - 1]));
        }
    } else {
        let i = choose|i: int| 0 <= i < text.len() && !is_white_space(#[trigger] text[i]);
        if big_e == 0 {
            assert(ws(text[i]));
        }
    }
}

/// The new text adds nothing when it is a prefix of the previous one.
proof fn lemma_prefix_is_common_prefix(new: Seq<char>, old: Seq<char>)
    ensures
        (common_prefix_len(old, new) == new.len()) <==> (new.len() <= old.len() && old.take(
            new.len() as int,
        ) == new),
{
    lemma_common_prefix_len(old, new);
    if common_prefix_len(old, new) == new.len() {
        assert(old.take(new.len() as int) =~= new);
    }
    if new.len() <= old.len() && old.take(new.len() as int) == new {
        assert forall|j: int| 0 <= j < new.len() implies #[trigger] old[j] == new[j] by {
            assert(old.take(new.len() as int)[j] == old[j]);
        }
        lemma_common_prefix_len_is(old, new, new.len() as int);
    }
}

/// When the new text is not a prefix of the previous one and ends in
/// whitespace, the word spoken is the text's last word; nothing is spoken
/// only when the text's last stretch without whitespace holds no letter,
/// digit or apostrophe, or when its last word is the word just spoken and
/// the previous text still ends in it.
pub proof fn law_evaluation_speaks_last_word(new: Seq<char>, st: TypingView)
    requires
        new.len() > 0,
        is_white_space(new.last()),
        !(new.len() <= st.last_text.len() && st.last_text.take(new.len() as int) == new),
    ensures
        evaluation(new, st).0 matches Some(Utterance::Word(w)) ==> is_last_word(new, w),
        !(evaluation(new, st).0 matches Some(Utterance::Sentence(_))),
        evaluation(new, st).0 is None ==> {
            ||| forall|c: int, e: int|
                #[trigger] last_segment(new, c, e) ==> forall|i: int|
                    c <= i < e ==> !is_word_char(#[trigger] new[i])
            ||| {
                &&& st.last_word matches Some(x)
                &&& ends_with(st.last_text, x)
                &&& is_last_word(new, x)
            }
        },
{
    lemma_prefix_is_common_prefix(new, st.last_text);
    law_completed_word_is_last_word(new);
    if new == st.last_text {
        assert(st.last_text.take(new.len() as int) =~= new);
    }
    assert(!is_sentence_ender_char(new.last()));
    assert(is_word_boundary_char(new.last()));
    assert(evaluation(new, st).0 == word_outcome(new, st).0);
    let w = completed_word(new);
    if w.len() > 0 {
        if st.last_word == Some(w) && ends_with(st.last_text, w) {
            assert(st.last_word->0 == w);
        } else {
            assert(evaluation(new, st).0 == Some(Utterance::Word(w)));
        }
    }
}

/// When the new text is not a prefix of the previous one and ends in a
/// sentence ender, the sentence spoken is the text's last sentence, unless
/// that sentence is the one spoken last, in which case nothing is spoken.
pub proof fn law_evaluation_speaks_last_sentence(new: Seq<char>, st: TypingView)
    requires
        new.len() > 0,
        is_sentence_ender_char(new.last()),
        !(new.len() <= st.last_text.len() && st.last_text.take(new.len() as int) == new),
    ensures
        ({
            ||| {
                &&& evaluation(new, st).0 matches Some(Utterance::Sentence(s))
                &&& st.last_sentence != Some(s)
                &&& is_last_sentence(new, s)
            }
            ||| {
                &&& evaluation(new, st).0 is None
                &&& st.last_sentence matches Some(x)
                &&& is_last_sentence(new, x)
            }
        }),
{
    lemma_prefix_is_common_prefix(new, st.last_text);
    law_completed_sentence_is_last_sentence(new);
    if new == st.last_text {
        assert(st.last_text.take(new.len() as int) =~= new);
    }
    assert(!is_white_space(new[new.len() - 1]));
    let s = completed_sentence(new);
    assert(evaluation(new, st).0 == sentence_outcome(new, st).0);
    if st.last_sentence == Some(s) {
        assert(st.last_sentence->0 == s);
    } else {
        assert(evaluation(new, st).0 == Some(Utterance::Sentence(s)));
    }
}

} // verus!
