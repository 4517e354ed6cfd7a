# shiro_daemon

The local service behind the shiro writing tool: projects and manuscripts,
a character library, model profiles, a chat that proposes document edits,
and a pipeline that distils a character card from a script.

- `src/` — the library, verified with Verus: text handling, chunking of
  scripts, material probing, evidence packs, prompt assembly, quote
  verification, profile management, chat sessions and proposals, the task
  state machine, call-log summaries, folder listings and their orders. Every
  public function states its result in `ensures`; the `law_*` proof functions
  state properties that span several calls. Calls into `serde_json`,
  `serde_yaml`, the `Debug` formatting of a string and `String::push` go
  through a few trusted wrappers whose doc comments say what is assumed of them.
- `app/` — the HTTP daemon (axum): routes, file and network I/O, the model
  client, folder watching, and the background task runner. It hands plain
  values to the library and follows its decisions.
- `tests/` — tests of the library on concrete values.
