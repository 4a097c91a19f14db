# agent_harness

The decision-making core of a coding-agent harness, written in Verus and
proved against its contracts, with a thin runnable program around it.

## Layout

- `src/` — the verified library.
  - `text` — character-level string helpers (trimming, words, sorting) with
    their specifications.
  - `message` — the conversation model, text extraction and transcript
    normalisation (unanswered tool calls get a cancelled result, neighbouring
    messages of one role merge).
  - `compact` — shortening old tool results, saving large outputs, the state
    a compaction keeps.
  - `permission` — the bash validator, permission rules, modes and the
    decision pipeline.
  - `skill` — skill documents, front matter and the skill registry.
  - `recovery` — error classification, back-off and the recovery state
    machine of a turn.
  - `cron`, `scheduler` — cron records, jitter and the scheduler's task table.
  - `background` — background command records and notifications.
  - `team` — team configuration, the message bus and request protocols.
  - `prompt` — system prompt sections, templates and their rendering.
  - `agent`, `tools` — hook chains, turn bookkeeping and tool argument
    handling.
- `tests/` — tests of the library on concrete values.
- `app/` — the program: model client, terminal, files, processes and timers.

Calls into outside crates (`regex`, `wildmatch`, `cron`, `chrono`, `tera`)
go through small trusted wrappers whose contracts are stated next to them.
