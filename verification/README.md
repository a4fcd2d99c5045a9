# plaid_kit

Verified building blocks of a code-search tool and of its index server.

- `src/sfc`: single-file components (Svelte, Vue). Finding the `<script>`, `<template>`
  and `<style>` regions line by line, the raw-code unit of a template, the walk over a
  script's syntax tree that picks the nodes to index (with its depth guard), and the
  assembly of a component's units.
- `src/api`: the index server's errors and their HTTP answers, request and response
  models, command line and router settings, the endpoints and the limits each group
  of them runs under, the rate limiter's answer, a name-keyed map used for caches,
  the per-index loading lock, index listing and index summaries (read from the bytes
  of `metadata.json`).
- `src/commands`: what the `config` command changes in the stored settings, and the
  steps of `set-model`.
- `src/text.rs`, `src/num.rs`: lines, trimming and searching in text; decimal numbers.
- `app/`: the unverified edges: environment and file access, HTTP responses, serde
  copies of the library's types, the process-wide state of the server, and the drivers
  of `config`, `set-model` and component unit collection.

What is not here: the TypeScript parser whose syntax trees feed the tree walk (callers
supply each script's parse as a `ScriptParse`), the HTTP handlers, and so the server's
entry point and router; the search engine's index type is likewise supplied by callers
of `app::state::AppState`.

Verus checks the functions under `src/` against their `requires`/`ensures` contracts.
A few items are trusted instead of checked, each with a doc comment that says what it
claims: the wrappers around `str::to_lowercase`, `Mutex::new`, `Arc::clone` and the
JSON field lookup with `serde_json`, and the specification given to `String::push`.
`tests/` runs the library on concrete inputs.
