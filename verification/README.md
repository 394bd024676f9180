# wordkeep

wordkeep is a local MCP server that gives coding agents structured, token-budgeted
context instead of full-file dumps. Its logic is a library written in Verus: every
function carries a contract, and Verus proves the code against it.

## Layout

- `src/` is the verified library.
  - `text`, `json`, `smap`, `order`, `binary`, `args`, `paths`: texts, JSON values,
    maps, sorting, the rounding of figures, and paths below the root.
  - `lang`, `syntax`: languages and syntax trees.
  - `repo_map`, `outline`, `symbol_*`, `module_map`, `test_map`, `profile_upsert`:
    maps of source trees and symbols.
  - `knowledge`: notes in sections, search, writing, and the embedding cache.
  - `mas`, `runs`, `session_pressure`: shared sessions, run history, pressure.
  - `stats`: counters of what the tools saved, and their reports.
  - `runtime`: memory captures.
  - `izakaya`: presence, handoffs, the journal, policies and their replay.
  - `mcp`, `progress`: the protocol.
- `tests/` runs the library on concrete values.
- `app/` is the program: files, git, locks, time, stdio, and what is computed in
  floating point (scores of a search, blends of embeddings, scores of a policy).

## What is trusted

Parsing goes to tree-sitter and its grammars, reading and writing JSON to
serde_json, and a few functions of the standard library (lower case, quoting,
alphanumeric characters, decoding of bytes, the default hash) are named rather than
specified. Each of these calls stands in a small function that says what is taken on
trust. Everything else is proved.

## Laws

Properties that span several functions are public proof functions named `law_*`,
next to the code they speak of: that an answer keeps to its budget, that the journal
gives back the events that were written to it and replaying them gives the
projection, that the records, runs, sessions, counters and embeddings that are stored
are read as they were, that a note is only written below its directories, that a
repeated call gets its first answer, that a policy never changes who is present, and
others.
