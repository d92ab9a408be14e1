# mairu

Verified logic of a credentials agent's automatic role configuration:

- `path`: Unix paths as byte strings: components, parent, join, prefix, equality.
- `git`: from a path inside a linked git worktree to the same place in the main checkout. The main
  checkout has to register the worktree.
- `find`: the `.mairu.json` that applies to a directory.
- `auto`: a configuration, its digest, and whether a recorded trust matches it.
- `trust`: looking up and recording trust; worktrees inherit the trust in their main checkout.
- `worktree`: where the main checkout has the equivalent of a configuration file.
- `cmd::list_sessions`, `time`: listing sessions as text or JSON.
- `digest`, `text`: hashes, base64, and text helpers.

The library does no input or output. A search is a value that asks one question at a time
(`query`) and takes the answer (`resume`); `app/` answers from the file system. Contracts say how a
search ends on files that stay as they are.

SHA-2 (`sha2`), base64 (`base64`), RFC 3339 dates (`chrono`) and lossy text conversion (`std`) are
called through the few functions marked `external_body`.
