# loreglide

The verified core of Loreglide, a typing-echo service that speaks every
finished word and sentence typed into whichever text field has focus.

- `src/diffing.rs` — the diffing engine: from the previous and the new
  snapshot of a field, whether a word or a sentence was just completed.
  Its behaviour is stated as `evaluation` over `Seq<char>`; the laws
  (silence on repeats and shrinks, speaking only on completion, no repeated
  sentence, the shape of spoken words and sentences) are proof functions.
- `src/watcher.rs` — focus snapshots, the watcher's per-poll decisions
  (`FieldTracker`), the poll interval, and what the probes make of the
  focused element's answers: whether it may be read, its identity key and
  its text.
- `src/settings.rs` — the panel's switches and the in-window test box.
- `src/tts.rs` — speech errors and which requests are voiced.
- `src/text.rs` — trimming and searching over characters.
- `app/` — the Tauri application, the OS accessibility probes, the speech
  worker thread and the watcher thread, calling the library for every
  decision.
