# engramdb

The rules of a memory store for coding agents, verified with Verus.

A store keeps memories as Markdown files in two directories, one that is shared
with the project and one that is the user's own, and an index beside them. This
library decides; it does no input or output of its own. It is handed what a
directory lists, what a file holds, what the index answers or what the clock
shows, and returns which files to read, write and remove, which rows to put into
the index, and which request to refuse with which message.

- `src/` is the library. Every function states in its contract what it returns.
  - What a memory is: `memory`, `epistemic`, `challenge`, `decay`, `provenance`,
    `normalize`.
  - Finding and writing memories: `store`, `writes`, `batches`, `reindex`,
    `manifest`, `worktree`. What holds of several of their operations together is
    proved in `store_laws`, `write_laws`, `read_back` and `batch_laws`.
  - Session transcripts: `transcripts`, `sessions`, `preview`, `transcript_laws`,
    `transcript_archive`, `task_state`, `terminal`.
  - Settings: `config`, `env`, `title_strategy`, `project_list_grouping`.
  - Ground: `text`, `order`, `sort`, `seqs`, `path`, `time`, `json`, `binary64`,
    `error`, `recall`.
- `tests/` runs the library on concrete values.
- `app/` is what surrounds it: files, locks, serialized formats, and the traits
  of an index, a file format, a registry and a directory layout.

Numbers with a fraction are binary64 numbers held by their bits (`binary64`); no
arithmetic is done on them here. Calls into other crates stand behind small
functions whose contracts are taken on trust; each says so above it.
