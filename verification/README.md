# file_mentions

`@file` workspace path completion for an editor: a completion-only language
server keeps an in-memory index of the workspace's files and directories and
answers completion requests when the cursor sits inside an `@query` token.

The library under `src/` holds the logic, verified with Verus:

- `completion` finds the mention token under the cursor (UTF-16 positions,
  token boundaries) and builds completion candidates from ranked entries.
- `config` holds the settings, their defaults and how user options merge into
  them (user excludes are additive; built-in excludes stay active).
- `index` describes index entries and decides what a workspace walk keeps
  (`scanner`), how entries are scored and ranked for a query (`scoring`) and
  when a file-watcher event triggers a rebuild (`watcher`).
- `server` ties mention extraction, search and candidate building together and
  orders the workspace roots.
- `extension` holds the editor extension's decisions on how the server is
  launched.
- `text`, `paths` and `order` are the string, path and ordering helpers the
  contracts are stated with.

Calls into `globset` and `fuzzy-matcher`, and the few std calls vstd does not
specify, go through small trusted wrappers whose contracts state what those
crates document.

`app/` is the program around the library: the LSP transport, walking the file
system, file watching, timers and the editor extension entry point.
