# fig_lite

The logic of fig-lite's inline shell completion and of the desktop app's
shell-hook handling, as a Verus-verified library.

- `src/text.rs` — character-level string operations (trimming, first line,
  prefix stripping, decimal formatting, UTF-8/UTF-16 lengths) with their
  definitions.
- `src/pattern.rs` — the `regex` crate behind trusted wrappers.
- `src/completion.rs` — cleaning of completions returned by the service.
- `src/prompt.rs` — the numbered history prompt and its length limit.
- `src/inline.rs` — the decisions of a completion request: buffer, cache,
  retry state machine.
- `src/settings.rs` — the environment's settings, parsed.
- `src/remote_hook.rs` — popup visibility, UTF-16 cursor positions and
  notification contents for shell hooks.
- `app/` — the unverified runtime: environment access, the async request
  loop, the shell-hook handlers,
  and the floating-point caret geometry.
