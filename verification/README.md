# wcore

The decision logic of a terminal agent front end and its chat-channel
dispatch, written in Verus and proved against its contracts.

- `src/` is the verified library. `channels/` holds the inbound-message
  admission, deduplication, per-conversation rate limiting, session keys and
  outbound chunking; `agents/`, `toolcard`, `tree`, `sources`, `diff` and
  `render/` compute what the interface shows, as styled segments; `at_ref*`
  parse, complete and resolve `@`-references in a prompt; `checkpoint` and
  `plugin` decide what a workspace checkpoint or a plugin install touches;
  `prompt_check` grades a prompt for vagueness; `formatters` summarise tool
  results; `permission/` builds the approval prompts.
- Calls into `regex`, `serde_json` and `syntect` (diff highlighting), and a
  few `std` path and string functions, stand behind small trusted wrappers
  whose contracts say what the outside function gives back.
- `app/` is the unverified shell around the library: terminal drawing with
  `ratatui`, the process-wide highlight cache, filesystem and process I/O,
  `serde`/`toml` records, and the figures printed as floats.
- `tests/` runs the library on concrete values.
