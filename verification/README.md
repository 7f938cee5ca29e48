# eipw_lint

A linter for Ethereum Improvement Proposals: a preamble of `name: value`
headers between two `---` lines, followed by a markdown body. Each lint
checks one rule and reports messages with annotated snippets.

## Layout

- `src/` — the library, verified with Verus:
  - `preamble.rs`, `process.rs`: splitting a proposal, reading its
    preamble and placing its body's nodes; `tree.rs`: the markdown body
    (parsed with comrak) as a flat list of nodes.
  - `lints/`: the preamble and markdown lints, `DefaultLint` (the lints a
    configuration can name) and the linting context.
  - `config.rs`, `modifiers.rs`, `builder.rs`, `linter.rs`: the default
    configuration, the modifiers of the annotation level, the linter's
    settings, the fetch plan and the run of the lints on a proposal.
  - `text.rs`, `search.rs`, `collate.rs`, `dates.rs`, `pattern.rs`,
    `json.rs`, `snippets.rs`: text helpers, ordering of strings, dates,
    regular expressions, JSON and JSON Schema, messages.
- `tests/` — tests of the library.
- `app/` — reading files, fetching the proposals that lints read, and
  rendering messages with annotate-snippets.
