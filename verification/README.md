# moss

The verified core of Moss, a local-first agent runtime that turns a user's
intent into a graph of tasks ("gaps"), runs them, and synthesizes an answer.

`src/` is checked by Verus:

- `moss/artifact_guard.rs` — the four-stage scanner every artifact passes
  before it runs (forbidden patterns, allowed tools, size and timeout limits, patterns that
  need a human's approval), with its laws.
- `moss/blackboard.rs` — the board of gaps, their lifecycle states and the
  evidence recorded against them; propagation of terminal failure to
  dependent gaps, promotion and draining of ready gaps.
- `moss/orchestrator.rs` — how a plan is laid on the board, how many gaps run
  at once, and how each gap task moves from scan verdict to execution, retry
  or closure; when the execution loop ends (with the laws on dispatch order,
  deadlock and gated gaps); unwrapping fenced JSON replies.
- `moss/prompt.rs`, `moss/synthesizer.rs` — prompt rendering.
- `providers/` — chat messages, the backoff of provider retries, the echoing
  test provider, and the OpenRouter provider's `.env` parsing and
  application, settings, headers, endpoint and reply content.
- `cli.rs` — what the shell makes of an input line or an answer.
- `text.rs` — character-level search, trimming, stripping and replacing.

`app/` is the program around it: the interactive shell, the asynchronous
orchestrator that waits on models, humans and processes, HTTP, files and the
environment, and the serde forms of the library's types. Prompt templates
are read at run time from `prompts/decompose.md` and `prompts/synthesize.md`.
