# codex_link

The Link context of a coding agent, as a verified library.

- `src/` holds the logic, every item of it verified with Verus: the context
  capsule, the store of a thread, background triggers and their events, the
  observation of sessions, rules, AGENTS.md instructions, and sidecar files.
  Contracts speak of texts as sequences of characters and of each type by its
  view. Laws that span several functions are public proof functions.
- `tests/` holds tests on concrete values.
- `app/` is the host side in ordinary Rust: files, clocks, locks, tasks and
  serialised copies of the library's types.

What the library takes from outside crates and from the platform stands behind
a few trusted declarations, in `globs`, `regexes`, `paths`, `text`, `clock` and
`utf8_stream`; each says in its documentation what is believed of the outside
function. Numbers with a fraction are known by their bits, and token counts and
truncation come from the host as functions.
