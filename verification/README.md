# tingmo

Verified core of the Tingmo desktop dictation app, written in Verus.

- `src/` — the library. Every function is proved against its contract except
  the trusted wrappers around outside calls, whose contracts are believed:
  `push_char` (`String::push`), `lowercase_chars` (`str::to_lowercase`),
  `regex_new` / `regex_replace_all` (`regex::Regex::new` / `replace_all`),
  and the clock reads `system_time_now`, `since_unix_epoch`, `whole_secs`,
  `whole_millis`, `instant_now`, `instant_elapsed`. Modules:
  - `text` — character-sequence model of trimming, search, replacement,
    splitting and joining.
  - `audio_split` — sample-range planning for long audio (fixed and
    energy-aware tilings, leading overlap) and de-duplicating transcript join.
  - `text_punctuate` — pause-based punctuation of live segments and the
    built-in discourse-marker punctuator.
  - `markers`, `marker_commands`, `marker_sync` — the ASR correction-marker
    store: rule replacement, glossary and Markdown rendering, parsing of LLM
    output, merging, and the export/import round trip.
  - `session`, `segment_pipeline` — the recording-session state machine and
    the decisions of the live segment worker.
  - `prompts_fs`, `clock` — prompt file naming and changelog date labels.
- `tests/` — executable tests of the library.
- `app/` — files, threads, clocks and floating-point audio probing around the
  library, plus serialisable copies of its data types.
