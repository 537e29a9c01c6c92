# expression_trainer

Verified core of a speaking-practice trainer (live transcript, lexicon
feedback, LLM feedback, session history).

- `src/` — the library, verified with Verus:
  - `json` — the JSON document model (values, member lookup and update),
  - `text` — characters of strings, Unicode whitespace and trimming, decimals,
  - `lexicon` — forward-maximum-matching segmentation and transcript analysis,
  - `settings` — provider defaults, legacy-layout migration, loading decisions,
  - `llm` — provider resolution, chat messages, reply reading,
  - `history` — safe ids, listed summaries, newest-first order,
  - `asr` — model-file choice, session lifecycle, result classification.
- `app/` — the Tauri shell: files, HTTP, the speech engine and the commands.
- `tests/` — tests of the library.
